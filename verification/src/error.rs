//! The container's failures.

use vstd::prelude::*;
use crate::text::join2;

verus! {

/// Why a text could not be read as a value of some kind.
#[derive(Clone, Copy, Debug, PartialEq, Eq, Structural)]
pub enum ParseFailure {
    /// The text is empty.
    Empty,
    /// The text holds a character that no number has there.
    InvalidDigit,
    /// The number is above the kind's largest value.
    TooLarge,
    /// The number is below the kind's smallest value.
    TooSmall,
    /// The text is neither `true` nor `false`.
    NotBool,
}

/// A failure of the container.
#[derive(Clone, Debug, PartialEq, Eq)]
pub enum Error {
    /// A descriptor of this name is already registered in the context.
    DuplicateComponent { name: String, ty_name: String, context: String },
    /// No descriptor of this name is visible from the context.
    NotFound { name: String, context: String },
    /// No descriptor visible from the context has the wanted capability.
    NoCandidate,
    /// More than one descriptor visible from the context has the wanted
    /// capability, and none of them is marked as the primary one.
    AmbiguousCandidate { count: usize },
    /// The component's concrete type has no descriptor in the type registry.
    UnregisteredType,
    /// The component's concrete type has no downcast to the wanted capability.
    NoDowncastRegistered { ty_name: String },
    /// The registered downcast function rejected the component.
    DowncastMismatch { ty_name: String },
    /// The factory of the component of this name failed; `reason` is the message
    /// of the failure it returned.
    FactoryFailed { name: String, reason: String },
    /// A component of this name was already cached when the new one arrived.
    UnexpectedDuplicate { name: String, ty_name: String, context: String },
    /// A runner's task ended without a result.
    RunnerTaskFailed { runner: String },
    /// The messages of several failures, in the order in which they came.
    Combined { messages: Vec<String> },
    /// A template names a property that has neither a value nor a default.
    PropertyNotFound { key: String },
    /// A text is no value of the wanted kind.
    InvalidValue { kind: String, why: ParseFailure },
    /// A failure that a component, a factory or an initialiser describes itself.
    Custom { message: String },
}

/// What an `Error` says, with texts as sequences of characters.
pub enum Failure {
    DuplicateComponent { name: Seq<char>, ty_name: Seq<char>, context: Seq<char> },
    NotFound { name: Seq<char>, context: Seq<char> },
    NoCandidate,
    AmbiguousCandidate { count: nat },
    UnregisteredType,
    NoDowncastRegistered { ty_name: Seq<char> },
    DowncastMismatch { ty_name: Seq<char> },
    FactoryFailed { name: Seq<char>, reason: Seq<char> },
    UnexpectedDuplicate { name: Seq<char>, ty_name: Seq<char>, context: Seq<char> },
    RunnerTaskFailed { runner: Seq<char> },
    Combined { messages: Seq<Seq<char>> },
    PropertyNotFound { key: Seq<char> },
    InvalidValue { kind: Seq<char>, why: ParseFailure },
    Custom { message: Seq<char> },
}

/// The views of a sequence of strings.
pub open spec fn views(lines: Seq<String>) -> Seq<Seq<char>> {
    lines.map_values(|s: String| s@)
}

/// `lines` joined by line feeds.
pub open spec fn join_lines(lines: Seq<Seq<char>>) -> Seq<char>
    decreases lines.len(),
{
    if lines.len() == 0 {
        Seq::empty()
    } else if lines.len() == 1 {
        lines[0]
    } else {
        join_lines(lines.drop_last()) + seq!['\n'] + lines.last()
    }
}

impl ParseFailure {
    /// The words that describe the failure.
    pub open spec fn text(self) -> Seq<char> {
        match self {
            ParseFailure::Empty => "cannot parse integer from empty string"@,
            ParseFailure::InvalidDigit => "invalid digit found in string"@,
            ParseFailure::TooLarge => "number too large to fit in target type"@,
            ParseFailure::TooSmall => "number too small to fit in target type"@,
            ParseFailure::NotBool => "provided string was not `true` or `false`"@,
        }
    }

    /// The words that describe the failure.
    pub fn describe(&self) -> (s: &'static str)
        ensures
            s@ == self.text(),
    {
        match self {
            ParseFailure::Empty => "cannot parse integer from empty string",
            ParseFailure::InvalidDigit => "invalid digit found in string",
            ParseFailure::TooLarge => "number too large to fit in target type",
            ParseFailure::TooSmall => "number too small to fit in target type",
            ParseFailure::NotBool => "provided string was not `true` or `false`",
        }
    }
}

impl Failure {
    /// The words `Bean(name=N, type=T) in Context(name=C)`.
    pub open spec fn bean_in(name: Seq<char>, ty_name: Seq<char>, context: Seq<char>) -> Seq<char> {
        "Bean(name="@ + name + ", type="@ + ty_name + ") in Context(name="@ + context + ")"@
    }

    /// The message of the failure.
    pub open spec fn text(self) -> Seq<char> {
        match self {
            Failure::DuplicateComponent { name, ty_name, context } =>
                "failed to register duplicated BeanDef(name="@ + name + ", type="@ + ty_name
                    + ") in Context(name="@ + context + ")"@,
            Failure::NotFound { name, context } => "cannot resolve Bean(name="@ + name
                + ") in Context(name="@ + context + ")"@,
            Failure::NoCandidate => "no candidate bean of the wanted type"@,
            Failure::AmbiguousCandidate { count } =>
                "more than one candidate bean of the wanted type"@,
            Failure::UnregisteredType => "Type is not registered in vine Type System"@,
            Failure::NoDowncastRegistered { ty_name } => "No downcast function registered for "@
                + ty_name,
            Failure::DowncastMismatch { ty_name } => "Failed to downcast "@ + ty_name,
            Failure::FactoryFailed { name, reason } => "failed to create Bean(name="@ + name
                + "): "@ + reason,
            Failure::UnexpectedDuplicate { name, ty_name, context } =>
                "unexpected duplicated bean has been created "@ + Self::bean_in(
                    name,
                    ty_name,
                    context,
                ),
            Failure::RunnerTaskFailed { runner } => "failed to start runner "@ + runner,
            Failure::Combined { messages } => join_lines(messages),
            Failure::PropertyNotFound { key } => "Property '"@ + key
                + "' not found and no default value provided"@,
            Failure::InvalidValue { kind, why } => "failed to parse "@ + kind + ": "@
                + why.text(),
            Failure::Custom { message } => message,
        }
    }
}

impl View for Error {
    type V = Failure;

    open spec fn view(&self) -> Failure {
        match self {
            Error::DuplicateComponent { name, ty_name, context } => Failure::DuplicateComponent {
                name: name@,
                ty_name: ty_name@,
                context: context@,
            },
            Error::NotFound { name, context } => Failure::NotFound {
                name: name@,
                context: context@,
            },
            Error::NoCandidate => Failure::NoCandidate,
            Error::AmbiguousCandidate { count } => Failure::AmbiguousCandidate {
                count: *count as nat,
            },
            Error::UnregisteredType => Failure::UnregisteredType,
            Error::NoDowncastRegistered { ty_name } => Failure::NoDowncastRegistered {
                ty_name: ty_name@,
            },
            Error::DowncastMismatch { ty_name } => Failure::DowncastMismatch { ty_name: ty_name@ },
            Error::FactoryFailed { name, reason } => Failure::FactoryFailed {
                name: name@,
                reason: reason@,
            },
            Error::UnexpectedDuplicate { name, ty_name, context } => Failure::UnexpectedDuplicate {
                name: name@,
                ty_name: ty_name@,
                context: context@,
            },
            Error::RunnerTaskFailed { runner } => Failure::RunnerTaskFailed { runner: runner@ },
            Error::Combined { messages } => Failure::Combined { messages: views(messages@) },
            Error::PropertyNotFound { key } => Failure::PropertyNotFound { key: key@ },
            Error::InvalidValue { kind, why } => Failure::InvalidValue { kind: kind@, why: *why },
            Error::Custom { message } => Failure::Custom { message: message@ },
        }
    }
}

/// `lines` joined by line feeds.
pub fn join_with_newlines(lines: &Vec<String>) -> (s: String)
    ensures
        s@ == join_lines(views(lines@)),
{
    let mut s = String::new();
    let mut i: usize = 0;
    while i < lines.len()
        invariant
            i <= lines.len(),
            s@ == join_lines(views(lines@).take(i as int)),
        decreases lines.len() - i,
    {
        let ghost all = views(lines@);
        proof {
            assert(all.take(i + 1).drop_last() == all.take(i as int));
            assert(all.take(i + 1).last() == lines@[i as int]@);
        }
        if i > 0 {
            s.push('\n');
            assert(s@ == join_lines(all.take(i as int)) + seq!['\n']);
        } else {
            assert(s@ == Seq::<char>::empty());
            assert(s@ + lines@[i as int]@ == lines@[i as int]@);
        }
        s.append(lines[i].as_str());
        i += 1;
    }
    assert(views(lines@).take(lines.len() as int) == views(lines@));
    s
}

impl Error {
    /// A failure with a message of the caller's own.
    pub fn custom(message: &str) -> (e: Error)
        ensures
            e@ == (Failure::Custom { message: message@ }),
    {
        Error::Custom { message: message.to_string() }
    }

    /// The message of the failure.
    pub fn message(&self) -> (s: String)
        ensures
            s@ == self@.text(),
    {
        match self {
            Error::DuplicateComponent { name, ty_name, context } => {
                let mut s = join2("failed to register duplicated BeanDef(name=", name.as_str());
                s.append(", type=");
                s.append(ty_name.as_str());
                s.append(") in Context(name=");
                s.append(context.as_str());
                s.append(")");
                s
            },
            Error::NotFound { name, context } => {
                let mut s = join2("cannot resolve Bean(name=", name.as_str());
                s.append(") in Context(name=");
                s.append(context.as_str());
                s.append(")");
                s
            },
            Error::NoCandidate => "no candidate bean of the wanted type".to_string(),
            Error::AmbiguousCandidate { count } =>
                "more than one candidate bean of the wanted type".to_string(),
            Error::UnregisteredType => "Type is not registered in vine Type System".to_string(),
            Error::NoDowncastRegistered { ty_name } => join2(
                "No downcast function registered for ",
                ty_name.as_str(),
            ),
            Error::DowncastMismatch { ty_name } => join2("Failed to downcast ", ty_name.as_str()),
            Error::FactoryFailed { name, reason } => {
                let mut s = join2("failed to create Bean(name=", name.as_str());
                s.append("): ");
                s.append(reason.as_str());
                s
            },
            Error::UnexpectedDuplicate { name, ty_name, context } => {
                let mut s = join2("unexpected duplicated bean has been created ", "Bean(name=");
                s.append(name.as_str());
                s.append(", type=");
                s.append(ty_name.as_str());
                s.append(") in Context(name=");
                s.append(context.as_str());
                s.append(")");
                assert(s@ == "unexpected duplicated bean has been created "@ + Failure::bean_in(
                    name@,
                    ty_name@,
                    context@,
                ));
                s
            },
            Error::RunnerTaskFailed { runner } => join2("failed to start runner ", runner.as_str()),
            Error::Combined { messages } => join_with_newlines(messages),
            Error::PropertyNotFound { key } => {
                let mut s = join2("Property '", key.as_str());
                s.append("' not found and no default value provided");
                s
            },
            Error::InvalidValue { kind, why } => {
                let mut s = join2("failed to parse ", kind.as_str());
                s.append(": ");
                s.append(why.describe());
                s
            },
            Error::Custom { message } => message.clone(),
        }
    }
}

} // verus!

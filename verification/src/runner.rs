//! What the driver needs of runners: their names and their outcomes.
//!
//! A runner is a component that does long-running work. It is resolved like
//! any other component; running it is the caller's business. The driver names
//! runners in its diagnostics and gathers what became of them.

use vstd::prelude::*;
use crate::error::Error;
use crate::error::Failure;
use crate::error::views;
use crate::text::slice_to_string;
use crate::text::to_chars;

verus! {

/// What became of one runner.
pub enum RunnerOutcome {
    /// The runner ran to its end.
    Done,
    /// The runner ended with a failure.
    Failed(Error),
    /// The task that ran the runner of this name ended without a result.
    TaskFailed(String),
}

/// Whether `::` stands in `s` at index `i`.
pub open spec fn sep_at(s: Seq<char>, i: int) -> bool {
    0 <= i && i + 1 < s.len() && s[i] == ':' && s[i + 1] == ':'
}

/// The index of the last `::` of `s` that starts before `upto`, or -1 where
/// there is none.
pub open spec fn last_sep(s: Seq<char>, upto: int) -> int
    decreases upto,
{
    if upto <= 0 {
        -1
    } else if sep_at(s, upto - 1) {
        upto - 1
    } else {
        last_sep(s, upto - 1)
    }
}

/// The last segment of a path: what stands behind the last `::` of `full`, or
/// all of `full` where it holds none.
pub open spec fn last_segment(full: Seq<char>) -> Seq<char> {
    let at = last_sep(full, full.len() as int);
    if at < 0 {
        full
    } else {
        full.skip(at + 2)
    }
}

/// The message that one outcome adds to the driver's failure, if any.
pub open spec fn complaint(outcome: RunnerOutcome) -> Option<Seq<char>> {
    match outcome {
        RunnerOutcome::Done => None,
        RunnerOutcome::Failed(e) => Some(e@.text()),
        RunnerOutcome::TaskFailed(runner) => Some((Failure::RunnerTaskFailed { runner: runner@ }).text()),
    }
}

/// The messages of the outcomes that are failures, in the order of the
/// outcomes.
pub open spec fn complaints(outcomes: Seq<RunnerOutcome>) -> Seq<Seq<char>>
    decreases outcomes.len(),
{
    if outcomes.len() == 0 {
        Seq::empty()
    } else {
        match complaint(outcomes.last()) {
            None => complaints(outcomes.drop_last()),
            Some(text) => complaints(outcomes.drop_last()).push(text),
        }
    }
}

/// The name under which a runner of the type named `full` goes: the last
/// segment of the type's path.
pub fn runner_name(full: &str) -> (name: String)
    ensures
        name@ == last_segment(full@),
{
    let chars = to_chars(full);
    let mut i: usize = chars.len();
    while i > 0
        invariant
            i <= chars.len(),
            chars@ == full@,
            last_sep(chars@, chars.len() as int) == last_sep(chars@, i as int),
        decreases i,
    {
        if i < chars.len() && chars[i - 1] == ':' && chars[i] == ':' {
            proof {
                assert(sep_at(chars@, i - 1));
                assert(chars@.subrange(i + 1, chars.len() as int) == chars@.skip(i + 1));
            }
            return slice_to_string(&chars, i + 1, chars.len());
        }
        i -= 1;
    }
    proof {
        assert(chars@.subrange(0, chars.len() as int) == chars@);
    }
    slice_to_string(&chars, 0, chars.len())
}

/// What the driver's run comes to, given what became of each runner: success
/// where every runner ran to its end, and otherwise one failure that holds the
/// message of every runner's failure, in the order of the outcomes.
pub fn collect_outcomes(outcomes: &Vec<RunnerOutcome>) -> (r: Result<(), Error>)
    ensures
        if complaints(outcomes@).len() == 0 {
            r is Ok
        } else {
            r matches Err(e) && e@ == (Failure::Combined { messages: complaints(outcomes@) })
        },
{
    let mut messages: Vec<String> = Vec::new();
    let mut i: usize = 0;
    while i < outcomes.len()
        invariant
            i <= outcomes.len(),
            views(messages@) == complaints(outcomes@.take(i as int)),
        decreases outcomes.len() - i,
    {
        proof {
            assert(outcomes@.take(i + 1).drop_last() == outcomes@.take(i as int));
            assert(outcomes@.take(i + 1).last() == outcomes@[i as int]);
        }
        let ghost before = views(messages@);
        match &outcomes[i] {
            RunnerOutcome::Done => {},
            RunnerOutcome::Failed(e) => {
                messages.push(e.message());
                proof {
                    assert(views(messages@) == before.push(e@.text()));
                }
            },
            RunnerOutcome::TaskFailed(runner) => {
                let e = Error::RunnerTaskFailed { runner: runner.clone() };
                messages.push(e.message());
                proof {
                    assert(views(messages@) == before.push(e@.text()));
                }
            },
        }
        i += 1;
    }
    proof {
        assert(outcomes@.take(outcomes.len() as int) == outcomes@);
    }
    if messages.len() == 0 {
        Ok(())
    } else {
        Err(Error::Combined { messages })
    }
}

} // verus!

//! The rules by which a component's fields and handlers are wired: which kind
//! of injection a field asks for, which reader a configured value needs, and
//! which HTTP method an attribute names.
//!
//! The rules are stated over names. Finding the names in source code, and
//! writing out the code that does the wiring, is the caller's business.

use vstd::prelude::*;
use crate::text::str_eq;

verus! {

/// How a configured value is read from its template.
#[derive(Clone, Copy, Debug, PartialEq, Eq, Structural)]
pub enum ValueReader {
    Text,
    Bool,
    I8,
    I16,
    I32,
    I64,
    U8,
    U16,
    U32,
    U64,
    F32,
    F64,
}

/// What a field of a component asks for.
#[derive(Clone, Copy, Debug, PartialEq, Eq, Structural)]
pub enum FieldKind {
    /// The component of a given name.
    Bean,
    /// The value of a template.
    Value,
    /// Every component of a capability.
    Beans,
    /// The one component of a capability.
    PrimaryBean,
}

/// An HTTP method that a handler may be routed under.
#[derive(Clone, Copy, Debug, PartialEq, Eq, Structural)]
pub enum HttpMethod {
    Get,
    Head,
    Post,
    Put,
    Delete,
    Patch,
    Options,
    Trace,
    Connect,
}

/// The reader for a value of the type named `ty`: the typed reader for a
/// boolean or a number, and the text itself for `String` and for every other
/// type.
pub open spec fn reader_of(ty: Seq<char>) -> ValueReader {
    if ty == "bool"@ {
        ValueReader::Bool
    } else if ty == "i8"@ {
        ValueReader::I8
    } else if ty == "i16"@ {
        ValueReader::I16
    } else if ty == "i32"@ {
        ValueReader::I32
    } else if ty == "i64"@ {
        ValueReader::I64
    } else if ty == "u8"@ {
        ValueReader::U8
    } else if ty == "u16"@ {
        ValueReader::U16
    } else if ty == "u32"@ {
        ValueReader::U32
    } else if ty == "u64"@ {
        ValueReader::U64
    } else if ty == "f32"@ {
        ValueReader::F32
    } else if ty == "f64"@ {
        ValueReader::F64
    } else {
        ValueReader::Text
    }
}

/// What a field asks for, given the name of its first attribute, if it has
/// one, and the name of its type without the type's arguments. A `qualifier`
/// attribute asks for a component by name and a `value` attribute for a
/// configured value; without either, a `Vec` asks for every component and an
/// `Arc` for the one component. Any other field asks for nothing that can be
/// given.
pub open spec fn kind_of(attr: Option<Seq<char>>, outer: Seq<char>) -> Option<FieldKind> {
    if attr == Some("qualifier"@) {
        Some(FieldKind::Bean)
    } else if attr == Some("value"@) {
        Some(FieldKind::Value)
    } else if outer == "Vec"@ {
        Some(FieldKind::Beans)
    } else if outer == "Arc"@ {
        Some(FieldKind::PrimaryBean)
    } else {
        None
    }
}

/// The HTTP method that the attribute named `attr` stands for, if any.
pub open spec fn method_of(attr: Seq<char>) -> Option<HttpMethod> {
    if attr == "patch"@ {
        Some(HttpMethod::Patch)
    } else if attr == "options"@ {
        Some(HttpMethod::Options)
    } else if attr == "trace"@ {
        Some(HttpMethod::Trace)
    } else if attr == "connect"@ {
        Some(HttpMethod::Connect)
    } else if attr == "get"@ {
        Some(HttpMethod::Get)
    } else if attr == "head"@ {
        Some(HttpMethod::Head)
    } else if attr == "post"@ {
        Some(HttpMethod::Post)
    } else if attr == "put"@ {
        Some(HttpMethod::Put)
    } else if attr == "delete"@ {
        Some(HttpMethod::Delete)
    } else {
        None
    }
}

/// The reader for a value of the type named `ty`.
pub fn value_reader(ty: &str) -> (reader: ValueReader)
    ensures
        reader == reader_of(ty@),
{
    if str_eq(ty, "bool") {
        ValueReader::Bool
    } else if str_eq(ty, "i8") {
        ValueReader::I8
    } else if str_eq(ty, "i16") {
        ValueReader::I16
    } else if str_eq(ty, "i32") {
        ValueReader::I32
    } else if str_eq(ty, "i64") {
        ValueReader::I64
    } else if str_eq(ty, "u8") {
        ValueReader::U8
    } else if str_eq(ty, "u16") {
        ValueReader::U16
    } else if str_eq(ty, "u32") {
        ValueReader::U32
    } else if str_eq(ty, "u64") {
        ValueReader::U64
    } else if str_eq(ty, "f32") {
        ValueReader::F32
    } else if str_eq(ty, "f64") {
        ValueReader::F64
    } else {
        ValueReader::Text
    }
}

/// What a field asks for, given the name of its first attribute and the name
/// of its type.
pub fn field_kind(attr: Option<&str>, outer: &str) -> (kind: Option<FieldKind>)
    ensures
        kind == kind_of(
            match attr {
                Some(name) => Some(name@),
                None => None,
            },
            outer@,
        ),
{
    match attr {
        Some(name) => {
            if str_eq(name, "qualifier") {
                return Some(FieldKind::Bean);
            }
            if str_eq(name, "value") {
                return Some(FieldKind::Value);
            }
        },
        None => {},
    }
    if str_eq(outer, "Vec") {
        Some(FieldKind::Beans)
    } else if str_eq(outer, "Arc") {
        Some(FieldKind::PrimaryBean)
    } else {
        None
    }
}

/// The HTTP method that the attribute named `attr` stands for, if any.
pub fn http_method(attr: &str) -> (method: Option<HttpMethod>)
    ensures
        method == method_of(attr@),
{
    if str_eq(attr, "patch") {
        Some(HttpMethod::Patch)
    } else if str_eq(attr, "options") {
        Some(HttpMethod::Options)
    } else if str_eq(attr, "trace") {
        Some(HttpMethod::Trace)
    } else if str_eq(attr, "connect") {
        Some(HttpMethod::Connect)
    } else if str_eq(attr, "get") {
        Some(HttpMethod::Get)
    } else if str_eq(attr, "head") {
        Some(HttpMethod::Head)
    } else if str_eq(attr, "post") {
        Some(HttpMethod::Post)
    } else if str_eq(attr, "put") {
        Some(HttpMethod::Put)
    } else if str_eq(attr, "delete") {
        Some(HttpMethod::Delete)
    } else {
        None
    }
}

impl ValueReader {
    /// The name of the resolver's method that reads the value.
    pub open spec fn method_name(self) -> Seq<char> {
        match self {
            ValueReader::Text => "compute_template_value"@,
            ValueReader::Bool => "compute_template_value_as_bool"@,
            ValueReader::I8 => "compute_template_value_as_i8"@,
            ValueReader::I16 => "compute_template_value_as_i16"@,
            ValueReader::I32 => "compute_template_value_as_i32"@,
            ValueReader::I64 => "compute_template_value_as_i64"@,
            ValueReader::U8 => "compute_template_value_as_u8"@,
            ValueReader::U16 => "compute_template_value_as_u16"@,
            ValueReader::U32 => "compute_template_value_as_u32"@,
            ValueReader::U64 => "compute_template_value_as_u64"@,
            ValueReader::F32 => "compute_template_value_as_f32"@,
            ValueReader::F64 => "compute_template_value_as_f64"@,
        }
    }

    /// The name of the resolver's method that reads the value.
    pub fn method(&self) -> (name: &'static str)
        ensures
            name@ == self.method_name(),
    {
        match self {
            ValueReader::Text => "compute_template_value",
            ValueReader::Bool => "compute_template_value_as_bool",
            ValueReader::I8 => "compute_template_value_as_i8",
            ValueReader::I16 => "compute_template_value_as_i16",
            ValueReader::I32 => "compute_template_value_as_i32",
            ValueReader::I64 => "compute_template_value_as_i64",
            ValueReader::U8 => "compute_template_value_as_u8",
            ValueReader::U16 => "compute_template_value_as_u16",
            ValueReader::U32 => "compute_template_value_as_u32",
            ValueReader::U64 => "compute_template_value_as_u64",
            ValueReader::F32 => "compute_template_value_as_f32",
            ValueReader::F64 => "compute_template_value_as_f64",
        }
    }
}

impl HttpMethod {
    /// The name of the routing function of the method.
    pub open spec fn routing_name(self) -> Seq<char> {
        match self {
            HttpMethod::Get => "get"@,
            HttpMethod::Head => "head"@,
            HttpMethod::Post => "post"@,
            HttpMethod::Put => "put"@,
            HttpMethod::Delete => "delete"@,
            HttpMethod::Patch => "patch"@,
            HttpMethod::Options => "options"@,
            HttpMethod::Trace => "trace"@,
            HttpMethod::Connect => "connect"@,
        }
    }

    /// The name of the routing function of the method.
    pub fn routing(&self) -> (name: &'static str)
        ensures
            name@ == self.routing_name(),
    {
        match self {
            HttpMethod::Get => "get",
            HttpMethod::Head => "head",
            HttpMethod::Post => "post",
            HttpMethod::Put => "put",
            HttpMethod::Delete => "delete",
            HttpMethod::Patch => "patch",
            HttpMethod::Options => "options",
            HttpMethod::Trace => "trace",
            HttpMethod::Connect => "connect",
        }
    }
}

} // verus!

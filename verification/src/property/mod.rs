//! Configuration properties: the template language, the reading of values,
//! the resolver trait, and the properties of a `config::Config`.

pub mod parse;
pub mod property_resolver;
pub mod source;
pub mod template;

//! A small inversion-of-control container: a registry of named, lazily built
//! singleton components, resolved by name or by capability.
//!
//! - `ty` holds the type registry: which capabilities a component of a
//!   concrete type may be viewed through, and how.
//! - `bean_def` holds component descriptors and factories.
//! - `context` holds contexts: hierarchical scopes that register descriptors
//!   and resolve, build and cache components.
//! - `auto_register_context` fills a context from the setup functions that
//!   modules contribute.
//! - `app` and `runner` hold the driver that takes an application from its
//!   assembly to the end of its runners.
//! - `property` holds configuration properties and their template language.
//! - `inject` holds the rules by which components are wired.
//!
//! The registry and the contexts are plain values that are changed through
//! exclusive references. A caller that shares one between threads puts it
//! behind a lock of its own; a component is then built at most once for its
//! name, for no two callers resolve at the same time.

pub mod app;
pub mod auto_register_context;
pub mod bean_def;
pub mod context;
pub mod error;
pub mod inject;
pub mod names;
pub mod property;
pub mod runner;
pub mod text;
pub mod ty;

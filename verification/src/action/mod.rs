//! Typed, non-executable compositor actions and binding compilation.

pub mod ident;
pub mod values;
pub mod diagnostic;
pub mod trigger;
pub mod catalog;
pub mod binding;
pub mod runtime;
pub mod dispatch;
pub mod defaults;
pub mod default_bindings;

//! Model, binary codec, and expressibility analysis for the WebAssembly
//! WebIDL bindings custom section.
//!
//! The section's contents live in [`ast::WebidlBindings`]: three append-only
//! arenas (compound types, function bindings, binds) whose insertion order is
//! exactly the wire-format index order.

pub mod ast;
pub mod binary;
pub mod utf8;
pub mod expressible;

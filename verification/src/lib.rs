//! A linter for durable workflow source: it flags step calls whose
//! promises are never awaited and step calls nested inside another
//! step's callback.
//!
//! A parsing and binding collaborator turns source text into the model
//! of [`ast`]; [`symbols`] classifies which declared bindings denote
//! step objects; [`linter`] drives one context-sensitive traversal,
//! verified against the specification walk of [`walk`] and [`state`];
//! [`laws`] states and proves what holds of every traversal.

pub mod assoc;
pub mod ast;
pub mod diagnostics;
pub mod laws;
pub mod linter;
pub mod state;
pub mod symbols;
pub mod text;
pub mod tracker;
pub mod walk;

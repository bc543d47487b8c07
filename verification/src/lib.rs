//! The record behind a picture of ownership and borrowing: which variables, references and
//! functions a program has, and what happens between them on which line.
//!
//! The visitor in [`expr_visitor`] is shown the expressions, declarations and patterns of a function,
//! in the form of [`hir`]. It keeps track of access points, loans and events, and at the end closes
//! scopes and loans. [`state`] says what it has recorded, and [`laws`] what holds of it throughout.

pub mod aliases;
pub mod checks;
pub mod data;
pub mod declare;
pub mod expr_visitor;
pub mod hir;
pub mod laws;
pub mod lifetimes;
pub mod name_map;
pub mod scopes;
pub mod state;
pub mod steps;

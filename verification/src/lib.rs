//! A tree-walking interpreter for the Lox scripting language: scanner,
//! recursive-descent parser, lexical resolver and an evaluator that is
//! driven one step at a time by its host.
//!
//! Each stage is stated as a function on a mathematical model of its input
//! (`scanner::scan_from`, `grammar::parse_program`,
//! `scoping::resolve_declarations`, `semantics::MachineView::step`), and the
//! executable code is proved to compute that function. On top of that the
//! crate proves that resolution is sound: a program that the resolver has
//! accepted never fails to find a local variable where its depth points.

/// Diagnostics for the host to report.
pub mod error;
/// Tokens.
pub mod token;
/// Strings: comparison, building, decimal notation.
pub mod text;
/// A map from names to values.
pub mod table;
/// Source text to tokens.
pub mod scanner;
/// The syntax tree and its model.
pub mod ast;
/// The grammar, as functions on tokens.
pub mod grammar;
/// Tokens to a syntax tree.
pub mod parser;
/// Errors of the resolver and of the evaluator.
pub mod interp_error;
/// Lexical scoping, as functions on the model of the tree.
pub mod scoping;
/// The pass that writes depths into the tree.
pub mod resolver;
/// Runtime values.
pub mod value;
/// Environments and the heap.
pub mod environment;
/// What the evaluator and its host say to each other.
pub mod host;
/// One step of the evaluator, as a function on the model of its state.
pub mod semantics;
/// The evaluator.
pub mod interpreter;
/// Shortcuts for trying the front end.
pub mod test_utils;
/// What holds of the language.
pub mod theorems;
/// What it means for a resolved tree to be safe.
pub mod safety;
/// A tree that the resolver has accepted is safe.
pub mod resolved;
/// What the evaluator keeps true while it runs.
pub mod sound;
/// Every step keeps it true.
pub mod preservation;

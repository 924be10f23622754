//! A tree-walking evaluator for a small imperative scripting language, with
//! numbers, booleans, texts, arrays and objects, blocks, branches, labelled
//! loops, functions, assignments through paths, and a few built-in
//! procedures.
//!
//! The modules, from the values up:
//!
//! - `ast` is the syntax tree that is evaluated, `error` what can go wrong,
//!   and `flow` what an evaluated expression reports to the construct around
//!   it.
//! - `value` holds the values and their model. `number` and `text` are what
//!   the evaluator itself does with numbers and texts. `place` reads and
//!   writes slots inside the value stack, `deep` makes deep copies, `lookup`
//!   resolves names and paths, `print` gives values their textual form, `ops`
//!   and `assign` decide what operators and assignments do, and `builtins`
//!   holds the built-in procedures.
//! - `host` is the world around an evaluation: the arithmetic on numbers,
//!   their textual form, input, output and time. The evaluator keeps a record
//!   of every exchange with its host.
//! - `semantics` says what an evaluation does, as a function of the state it
//!   starts in and of that record. `runtime` is the evaluator, every function
//!   of which does what `semantics` says.
//! - `shape`, `keys` and `kept` state what holds of every evaluation: how
//!   high the stacks are afterwards, and that the keys of an object stay
//!   distinct.

pub mod assign;
pub mod ast;
pub mod builtins;
pub mod deep;
pub mod error;
pub mod flow;
pub mod host;
pub mod kept;
pub mod keys;
pub mod lookup;
pub mod number;
pub mod ops;
pub mod place;
pub mod print;
pub mod runtime;
pub mod semantics;
pub mod shape;
pub mod text;
pub mod value;

//! Exhaustive truth tables for propositional formulas over a fixed list of variables.
//!
//! `enumerator` lists every assignment of the variables in a canonical order,
//! `expr` evaluates and renders formula trees against it, and `table` pairs the two.
pub mod enumerator;
pub mod expr;
pub mod table;

//! Parsing of first-order logic formulas: a context-free grammar drives the
//! parse, and a verified builder turns the parse tree into a typed formula.
pub mod engine;
pub mod error;
pub mod formula;
pub mod laws;
pub mod tree;

//! The errors of parsing a formula.
use vstd::prelude::*;

verus! {

/// Why a formula could not be parsed. Each variant carries its context: the
/// grammar engine's message, the offending input, or the label of the tree
/// node that could not be converted.
#[derive(Debug, PartialEq, Eq)]
pub enum ParseError {
    /// The grammar text itself is malformed.
    GrammarCompilation(String),
    /// The input has no derivation under the grammar.
    InputParse(String),
    /// A parse tree node has no formula or term of its shape.
    StructuralConversion(String),
}

} // verus!

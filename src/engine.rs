//! The grammar engine: the formula grammar, compiled once by `bnf`, and the
//! parser that derives a parse tree from an input and converts it.
use vstd::prelude::*;
use vstd::string::*;
use crate::error::ParseError;
use bnf::ParseTreeNode;
use crate::formula::{text_of, wf, Formula, FormulaModel};
use crate::tree::{
    build_formula, formula_of, leaves, lemma_formula_eq, lemma_formula_text, tree_from_tokens, written,
    ParseTree, TreeToken,
};

verus! {

/// The surface syntax of formulas, in BNF. Its first rule, `formula`, is where
/// a parse starts.
pub const FORMULA_GRAMMAR: &'static str = "<formula> ::= <true> | <false> | <rel> | <and> | <or> | <implies> | <exists> | <forall>
<true> ::= 'T'
<false> ::= 'F'
<rel> ::= 'Rel ' <name> ' []' | 'Rel ' <name> ' [' <terms> ']'
<terms> ::= <var> | <var> ', ' <terms>
<var> ::= 'Var ' <name>
<and> ::= 'And (' <formula> ') (' <formula> ')'
<or> ::= 'Or (' <formula> ') (' <formula> ')'
<implies> ::= 'Implies (' <formula> ') (' <formula> ')'
<exists> ::= 'Exists ' <name> ' (' <formula> ')'
<forall> ::= 'Forall ' <name> ' (' <formula> ')'
<name> ::= '\"' <chars> '\"'
<chars> ::= <char> | <char> <chars>
<char> ::= 'A' | 'B' | 'C' | 'D' | 'E' | 'F' | 'G' | 'H' | 'I' | 'J' | 'K' | 'L' | 'M' | 'N' | 'O' | 'P' | 'Q' | 'R' | 'S' | 'T' | 'U' | 'V' | 'W' | 'X' | 'Y' | 'Z' |
           'a' | 'b' | 'c' | 'd' | 'e' | 'f' | 'g' | 'h' | 'i' | 'j' | 'k' | 'l' | 'm' | 'n' | 'o' | 'p' | 'q' | 'r' | 's' | 't' | 'u' | 'v' | 'w' | 'x' | 'y' | 'z' |
           '0' | '1' | '2' | '3' | '4' | '5' | '6' | '7' | '8' | '9'
";

/// `bnf::Grammar`, held opaque: a compiled grammar.
#[verifier::external_type_specification]
#[verifier::external_body]
pub struct ExGrammar(bnf::Grammar);

/// Relies on `bnf::Grammar`'s `FromStr` impl, which compiles BNF text into a
/// grammar, here the formula grammar; that text is well-formed BNF, so it
/// compiles. An error would be handed on as its message.
#[verifier::external_body]
fn compile_formula_grammar() -> (r: Result<bnf::Grammar, String>)
    ensures
        r is Ok,
{
    match FORMULA_GRAMMAR.parse::<bnf::Grammar>() {
        Ok(g) => Ok(g),
        Err(e) => Err(e.to_string()),
    }
}

/// Relies on `bnf::Grammar::build_parser`, which fails only where a non-terminal
/// is used and not defined (none is, in the formula grammar, the only one a
/// `Parser` holds), and on `bnf::GrammarParser::parse_input`, an Earley parser:
/// it yields a tree exactly when the input has a derivation from the first
/// rule, and every tree that it yields derives the whole input, so its
/// terminals, read in order, spell the input. Each node of the tree expands its
/// non-terminal by one rule of the grammar, with one child per symbol of the
/// rule, so the tree has the shapes that `formula_of` reads. The derivations of
/// the formula grammar spell exactly the texts of well-formed formulas. The first tree is
/// written out in pre-order: a node opens with its non-terminal as the grammar
/// writes it (`<formula>`) and closes after its children.
#[verifier::external_body]
fn first_derivation(p: &Parser, input: &str) -> (r: Option<Vec<TreeToken>>)
    ensures
        r is Some <==> is_formula_text(input@),
        r is Some ==> exists|t: ParseTree|
            #[trigger] written(t) == r->0@ && formula_of(t) is Some && leaves(t) == input@,
{
    let parser = p.grammar.build_parser().ok()?;
    let tree = parser.parse_input(input).next()?;
    let (mut out, mut stack) = (Vec::new(), vec![Some(ParseTreeNode::Nonterminal(tree))]);
    while let Some(item) = stack.pop() {
        match item {
            None => out.push(TreeToken::Close),
            Some(ParseTreeNode::Terminal(s)) => out.push(TreeToken::Leaf(s.to_string())),
            Some(ParseTreeNode::Nonterminal(t)) => {
                out.push(TreeToken::Open(t.lhs.to_string()));
                stack.push(None);
                stack.extend(t.rhs_iter().cloned().map(Some).collect::<Vec<_>>().into_iter().rev());
            },
        }
    }
    Some(out)
}

/// The input is the text of some well-formed formula.
pub open spec fn is_formula_text(input: Seq<char>) -> bool {
    exists|m: FormulaModel| wf(m) && #[trigger] text_of(m) == input
}

/// What `Parser::parse` promises of its result on `input`: the formula whose
/// text is the input, where there is one; otherwise an input error that
/// carries the input.
pub open spec fn parse_outcome(input: Seq<char>, r: Result<Formula, ParseError>) -> bool {
    match r {
        Ok(f) => wf(f@) && text_of(f@) == input,
        Err(e) => match e {
            ParseError::InputParse(s) => s@ == input && !is_formula_text(input),
            _ => false,
        },
    }
}

/// Converts a parse tree; on success the formula's text is the tree's text.
fn convert_tree(t: &ParseTree) -> (r: Result<Formula, ParseError>)
    ensures
        r is Ok ==> wf(r->Ok_0@) && text_of(r->Ok_0@) == leaves(*t),
        formula_of(*t) is Some ==> r is Ok,
{
    let r = build_formula(t);
    proof {
        if r is Ok {
            lemma_formula_text(*t);
        }
    }
    r
}

/// A compiled formula grammar, ready to parse formulas.
pub struct Parser {
    grammar: bnf::Grammar,
}

impl Parser {
    /// Compiles the formula grammar.
    pub fn new() -> (r: Result<Parser, ParseError>)
        ensures
            r is Ok,
    {
        match compile_formula_grammar() {
            Ok(grammar) => Ok(Parser { grammar }),
            Err(m) => Err(ParseError::GrammarCompilation(m)),
        }
    }

    /// Derives the first parse tree of `formula` and runs `f` on it. The tree
    /// lives only for the call of `f`. An input that is no formula's text has
    /// no derivation and gives an input error, without calling `f`.
    pub fn with_parse_tree<F, R>(&self, formula: &str, f: F) -> (r: Result<R, ParseError>) where
        F: FnOnce(&ParseTree) -> R,

        requires
            forall|t: &ParseTree| f.requires((t,)),
        ensures
            r is Ok <==> is_formula_text(formula@),
            match r {
                Ok(v) => exists|t: ParseTree|
                    #[trigger] leaves(t) == formula@ && formula_of(t) is Some && f.ensures((&t,), v),
                Err(e) => match e {
                    ParseError::InputParse(s) => s@ == formula@,
                    _ => false,
                },
            },
    {
        let toks = match first_derivation(self, formula) {
            Some(toks) => toks,
            None => {
                return Err(ParseError::InputParse(String::from_str(formula)));
            },
        };
        let ghost t = choose|t: ParseTree|
            #[trigger] written(t) == toks@ && formula_of(t) is Some && leaves(t) == formula@;
        let tree = tree_from_tokens(&toks, Ghost(t));
        proof {
            lemma_formula_eq(tree, t);
            lemma_formula_text(tree);
            lemma_formula_text(t);
        }
        let v = f(&tree);
        assert(leaves(tree) == formula@);
        Ok(v)
    }

    /// Parses `formula` into a formula tree.
    pub fn parse(&self, formula: &str) -> (r: Result<Formula, ParseError>)
        ensures
            parse_outcome(formula@, r),
    {
        let built = self.with_parse_tree(formula, convert_tree);
        match built {
            Ok(Ok(f)) => Ok(f),
            Ok(Err(e)) => Err(e),
            Err(e) => Err(e),
        }
    }
}

} // verus!

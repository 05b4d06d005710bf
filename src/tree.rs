//! Parse trees of the formula grammar, and their conversion into formulas.
use vstd::prelude::*;
use vstd::string::*;
use crate::error::ParseError;
use crate::formula::{
    is_name, is_name_char, terms_wf, wf, quoted, term_text, terms_text, text_of, Formula,
    FormulaModel, Term, TermModel,
};

verus! {

/// A derivation under the grammar: an inner node names the non-terminal that it
/// expands and holds its children in order; a leaf holds the text of a terminal.
#[derive(Debug)]
pub enum ParseTree {
    Leaf(String),
    Node(String, Vec<ParseTree>),
}

/// The text that a tree derives: its leaves, left to right.
pub open spec fn leaves(t: ParseTree) -> Seq<char>
    decreases t,
{
    match t {
        ParseTree::Leaf(s) => s@,
        ParseTree::Node(_, cs) => leaves_upto(cs, cs.len() as nat),
    }
}

/// The leaves of the first `n` trees of `cs`.
pub open spec fn leaves_upto(cs: Vec<ParseTree>, n: nat) -> Seq<char>
    decreases cs, n,
{
    if n == 0 || n > cs.len() {
        seq![]
    } else {
        leaves_upto(cs, (n - 1) as nat) + leaves(cs[n - 1])
    }
}

/// The tree is a leaf that holds exactly `s`.
pub open spec fn leaf_is(t: ParseTree, s: Seq<char>) -> bool {
    match t {
        ParseTree::Leaf(x) => x@ == s,
        _ => false,
    }
}

/// A `char` node: one letter or digit.
pub open spec fn char_of(t: ParseTree) -> Option<char> {
    match t {
        ParseTree::Node(l, cs) => if l@ == "<char>"@ && cs.len() == 1 {
            match cs[0] {
                ParseTree::Leaf(s) => if s@.len() == 1 && is_name_char(s@[0]) {
                    Some(s@[0])
                } else {
                    None
                },
                _ => None,
            }
        } else {
            None
        },
        _ => None,
    }
}

/// A `chars` node: a non-empty run of `char` nodes.
pub open spec fn chars_of(t: ParseTree) -> Option<Seq<char>>
    decreases t,
{
    match t {
        ParseTree::Node(l, cs) => if l@ == "<chars>"@ && cs.len() == 1 {
            match char_of(cs[0]) {
                Some(c) => Some(seq![c]),
                None => None,
            }
        } else if l@ == "<chars>"@ && cs.len() == 2 {
            match (char_of(cs[0]), chars_of(cs[1])) {
                (Some(c), Some(rest)) => Some(seq![c] + rest),
                _ => None,
            }
        } else {
            None
        },
        _ => None,
    }
}

/// A `name` node: a run of characters between double quotes.
pub open spec fn name_of(t: ParseTree) -> Option<Seq<char>> {
    match t {
        ParseTree::Node(l, cs) => if l@ == "<name>"@ && cs.len() == 3 && leaf_is(cs[0], "\""@)
            && leaf_is(cs[2], "\""@) {
            chars_of(cs[1])
        } else {
            None
        },
        _ => None,
    }
}

/// A `var` node: a variable term.
pub open spec fn var_of(t: ParseTree) -> Option<TermModel> {
    match t {
        ParseTree::Node(l, cs) => if l@ == "<var>"@ && cs.len() == 2 && leaf_is(cs[0], "Var "@) {
            match name_of(cs[1]) {
                Some(n) => Some(TermModel::Var(n)),
                None => None,
            }
        } else {
            None
        },
        _ => None,
    }
}

/// A `terms` node: one or more `var` nodes separated by `, `.
pub open spec fn terms_of(t: ParseTree) -> Option<Seq<TermModel>>
    decreases t,
{
    match t {
        ParseTree::Node(l, cs) => if l@ == "<terms>"@ && cs.len() == 1 {
            match var_of(cs[0]) {
                Some(v) => Some(seq![v]),
                None => None,
            }
        } else if l@ == "<terms>"@ && cs.len() == 3 && leaf_is(cs[1], ", "@) {
            match (var_of(cs[0]), terms_of(cs[2])) {
                (Some(v), Some(rest)) => Some(seq![v] + rest),
                _ => None,
            }
        } else {
            None
        },
        _ => None,
    }
}

/// A `rel` node: a relation name and its list of terms, possibly empty.
pub open spec fn relation_of(t: ParseTree) -> Option<FormulaModel> {
    match t {
        ParseTree::Node(l, cs) => if l@ == "<rel>"@ && cs.len() == 3 && leaf_is(cs[0], "Rel "@)
            && leaf_is(cs[2], " []"@) {
            match name_of(cs[1]) {
                Some(n) => Some(FormulaModel::Relation(n, seq![])),
                None => None,
            }
        } else if l@ == "<rel>"@ && cs.len() == 5 && leaf_is(cs[0], "Rel "@) && leaf_is(cs[2], " ["@)
            && leaf_is(cs[4], "]"@) {
            match (name_of(cs[1]), terms_of(cs[3])) {
                (Some(n), Some(ts)) => Some(FormulaModel::Relation(n, ts)),
                _ => None,
            }
        } else {
            None
        },
        _ => None,
    }
}

/// The keyword that opens a binary connective, by the label of its node.
pub open spec fn binary_keyword(l: Seq<char>) -> Option<Seq<char>> {
    if l == "<and>"@ {
        Some("And ("@)
    } else if l == "<or>"@ {
        Some("Or ("@)
    } else if l == "<implies>"@ {
        Some("Implies ("@)
    } else {
        None
    }
}

/// The keyword that opens a quantifier, by the label of its node.
pub open spec fn quantifier_keyword(l: Seq<char>) -> Option<Seq<char>> {
    if l == "<exists>"@ {
        Some("Exists "@)
    } else if l == "<forall>"@ {
        Some("Forall "@)
    } else {
        None
    }
}

pub open spec fn make_binary(l: Seq<char>, a: FormulaModel, b: FormulaModel) -> FormulaModel {
    if l == "<and>"@ {
        FormulaModel::And(Box::new(a), Box::new(b))
    } else if l == "<or>"@ {
        FormulaModel::Or(Box::new(a), Box::new(b))
    } else {
        FormulaModel::Implies(Box::new(a), Box::new(b))
    }
}

pub open spec fn make_quantifier(l: Seq<char>, v: Seq<char>, b: FormulaModel) -> FormulaModel {
    if l == "<exists>"@ {
        FormulaModel::Exists(v, Box::new(b))
    } else {
        FormulaModel::Forall(v, Box::new(b))
    }
}

/// The formula that a `formula` node stands for, if the tree has the shape that
/// the grammar gives it.
pub open spec fn formula_of(t: ParseTree) -> Option<FormulaModel>
    decreases t,
{
    match t {
        ParseTree::Node(l, cs) => if l@ == "<formula>"@ && cs.len() == 1 {
            match cs[0] {
                ParseTree::Node(k, ks) => if k@ == "<true>"@ && ks.len() == 1 && leaf_is(ks[0], "T"@) {
                    Some(FormulaModel::True)
                } else if k@ == "<false>"@ && ks.len() == 1 && leaf_is(ks[0], "F"@) {
                    Some(FormulaModel::False)
                } else if k@ == "<rel>"@ {
                    relation_of(cs[0])
                } else if binary_keyword(k@) is Some && ks.len() == 5 && leaf_is(
                    ks[0],
                    binary_keyword(k@)->0,
                ) && leaf_is(ks[2], ") ("@) && leaf_is(ks[4], ")"@) {
                    match (formula_of(ks[1]), formula_of(ks[3])) {
                        (Some(a), Some(b)) => Some(make_binary(k@, a, b)),
                        _ => None,
                    }
                } else if quantifier_keyword(k@) is Some && ks.len() == 5 && leaf_is(
                    ks[0],
                    quantifier_keyword(k@)->0,
                ) && leaf_is(ks[2], " ("@) && leaf_is(ks[4], ")"@) {
                    match (name_of(ks[1]), formula_of(ks[3])) {
                        (Some(v), Some(b)) => Some(make_quantifier(k@, v, b)),
                        _ => None,
                    }
                } else {
                    None
                },
                _ => None,
            }
        } else {
            None
        },
        _ => None,
    }
}

/// The leaves of an inner node with up to five children, spelled out.
proof fn lemma_node_leaves(t: ParseTree)
    requires
        t is Node,
    ensures
        ({
            let cs = t->Node_1;
            &&& cs.len() == 1 ==> leaves(t) == leaves(cs[0])
            &&& cs.len() == 2 ==> leaves(t) == leaves(cs[0]) + leaves(cs[1])
            &&& cs.len() == 3 ==> leaves(t) == leaves(cs[0]) + (leaves(cs[1]) + leaves(cs[2]))
            &&& cs.len() == 5 ==> leaves(t) == leaves(cs[0]) + (leaves(cs[1]) + (leaves(cs[2])
                + (leaves(cs[3]) + leaves(cs[4]))))
        }),
{
    reveal_with_fuel(leaves_upto, 6);
    let cs = t->Node_1;
    assert(leaves(t) == leaves_upto(cs, cs.len() as nat));
    if cs.len() == 1 {
        assert(leaves_upto(cs, 1) =~= leaves(cs[0]));
    } else if cs.len() == 2 {
        assert(leaves_upto(cs, 2) =~= leaves(cs[0]) + leaves(cs[1]));
    } else if cs.len() == 3 {
        assert(leaves_upto(cs, 3) =~= leaves(cs[0]) + (leaves(cs[1]) + leaves(cs[2])));
    } else if cs.len() == 5 {
        assert(leaves_upto(cs, 5) =~= leaves(cs[0]) + (leaves(cs[1]) + (leaves(cs[2]) + (leaves(
            cs[3]) + leaves(cs[4])))));
    }
}

proof fn lemma_chars_text(t: ParseTree)
    requires
        chars_of(t) is Some,
    ensures
        is_name(chars_of(t)->0),
        leaves(t) == chars_of(t)->0,
    decreases t,
{
    let cs = t->Node_1;
    lemma_node_leaves(t);
    lemma_node_leaves(cs[0]);
    if cs.len() == 1 {
        assert(leaves(t) =~= leaves(cs[0]));
    } else {
        lemma_chars_text(cs[1]);
        let n = chars_of(t)->0;
        assert(n == seq![char_of(cs[0])->0] + chars_of(cs[1])->0);
        assert forall|i: int| 0 <= i < n.len() implies is_name_char(#[trigger] n[i]) by {
            if i > 0 {
                assert(n[i] == (chars_of(cs[1])->0)[i - 1]);
            }
        }
        assert(leaves(t) =~= leaves(cs[0]) + leaves(cs[1]));
    }
}

proof fn lemma_name_text(t: ParseTree)
    requires
        name_of(t) is Some,
    ensures
        is_name(name_of(t)->0),
        leaves(t) == quoted(name_of(t)->0),
{
    reveal_strlit("\"");
    let cs = t->Node_1;
    lemma_node_leaves(t);
    lemma_chars_text(cs[1]);
    assert(leaves(t) =~= leaves(cs[0]) + leaves(cs[1]) + leaves(cs[2]));
    assert(leaves(t) =~= quoted(name_of(t)->0));
}

proof fn lemma_var_text(t: ParseTree)
    requires
        var_of(t) is Some,
    ensures
        is_name(var_of(t)->0->Var_0),
        leaves(t) == term_text(var_of(t)->0),
{
    reveal_strlit("Var ");
    let cs = t->Node_1;
    lemma_node_leaves(t);
    lemma_name_text(cs[1]);
    assert(leaves(t) =~= leaves(cs[0]) + leaves(cs[1]));
    assert(leaves(t) =~= term_text(var_of(t)->0));
}

proof fn lemma_terms_text(t: ParseTree)
    requires
        terms_of(t) is Some,
    ensures
        terms_wf(terms_of(t)->0),
        terms_of(t)->0.len() > 0,
        leaves(t) == terms_text(terms_of(t)->0),
    decreases t,
{
    reveal_strlit(", ");
    let cs = t->Node_1;
    lemma_node_leaves(t);
    let ts = terms_of(t)->0;
    lemma_var_text(cs[0]);
    if cs.len() == 1 {
        assert(leaves(t) =~= leaves(cs[0]));
        assert(terms_text(ts) == term_text(ts[0]));
    } else {
        lemma_terms_text(cs[2]);
        let rest = terms_of(cs[2])->0;
        assert(ts.drop_first() =~= rest);
        assert(leaves(t) =~= leaves(cs[0]) + (leaves(cs[1]) + leaves(cs[2])));
        assert forall|i: int| 0 <= i < ts.len() implies (match #[trigger] ts[i] {
            TermModel::Var(n) => is_name(n),
        }) by {
            if i > 0 {
                assert(ts[i] == rest[i - 1]);
            }
        }
    }
}

proof fn lemma_relation_text(t: ParseTree)
    requires
        relation_of(t) is Some,
    ensures
        wf(relation_of(t)->0),
        leaves(t) == text_of(relation_of(t)->0),
{
    reveal_strlit("Rel ");
    reveal_strlit(" []");
    reveal_strlit(" [");
    reveal_strlit("]");
    let cs = t->Node_1;
    lemma_node_leaves(t);
    lemma_name_text(cs[1]);
    let f = relation_of(t)->0;
    if cs.len() == 3 {
        assert(terms_text(seq![]) == Seq::<char>::empty());
        assert(leaves(t) =~= leaves(cs[0]) + leaves(cs[1]) + leaves(cs[2]));
        assert(leaves(t) =~= text_of(f));
    } else {
        lemma_terms_text(cs[3]);
        assert(leaves(t) =~= leaves(cs[0]) + leaves(cs[1]) + leaves(cs[2]) + leaves(cs[3]) + leaves(
            cs[4],
        ));
        assert(leaves(t) =~= text_of(f));
    }
}

proof fn lemma_char_eq(a: ParseTree, b: ParseTree)
    requires
        tree_eq(a, b),
    ensures
        char_of(a) == char_of(b),
{
    match a {
        ParseTree::Node(_, cs) => {
            if cs.len() > 0 {
                assert(tree_eq(cs[0], b->Node_1[0]));
            }
        },
        _ => {},
    }
}

proof fn lemma_chars_eq(a: ParseTree, b: ParseTree)
    requires
        tree_eq(a, b),
    ensures
        chars_of(a) == chars_of(b),
    decreases a,
{
    match a {
        ParseTree::Node(_, cs) => {
            let ds = b->Node_1;
            if cs.len() > 0 {
                assert(tree_eq(cs[0], ds[0]));
                lemma_char_eq(cs[0], ds[0]);
            }
            if cs.len() > 1 {
                assert(tree_eq(cs[1], ds[1]));
                lemma_chars_eq(cs[1], ds[1]);
            }
        },
        _ => {},
    }
}

proof fn lemma_name_eq(a: ParseTree, b: ParseTree)
    requires
        tree_eq(a, b),
    ensures
        name_of(a) == name_of(b),
{
    match a {
        ParseTree::Node(_, cs) => {
            let ds = b->Node_1;
            if cs.len() == 3 {
                assert(tree_eq(cs[0], ds[0]));
                assert(tree_eq(cs[2], ds[2]));
                assert(tree_eq(cs[1], ds[1]));
                lemma_chars_eq(cs[1], ds[1]);
            }
        },
        _ => {},
    }
}

proof fn lemma_var_eq(a: ParseTree, b: ParseTree)
    requires
        tree_eq(a, b),
    ensures
        var_of(a) == var_of(b),
{
    match a {
        ParseTree::Node(_, cs) => {
            let ds = b->Node_1;
            if cs.len() == 2 {
                assert(tree_eq(cs[0], ds[0]));
                assert(tree_eq(cs[1], ds[1]));
                lemma_name_eq(cs[1], ds[1]);
            }
        },
        _ => {},
    }
}

proof fn lemma_terms_eq(a: ParseTree, b: ParseTree)
    requires
        tree_eq(a, b),
    ensures
        terms_of(a) == terms_of(b),
    decreases a,
{
    match a {
        ParseTree::Node(_, cs) => {
            let ds = b->Node_1;
            if cs.len() > 0 {
                assert(tree_eq(cs[0], ds[0]));
                lemma_var_eq(cs[0], ds[0]);
            }
            if cs.len() == 3 {
                assert(tree_eq(cs[1], ds[1]));
                assert(tree_eq(cs[2], ds[2]));
                lemma_terms_eq(cs[2], ds[2]);
            }
        },
        _ => {},
    }
}

proof fn lemma_relation_eq(a: ParseTree, b: ParseTree)
    requires
        tree_eq(a, b),
    ensures
        relation_of(a) == relation_of(b),
{
    match a {
        ParseTree::Node(_, cs) => {
            let ds = b->Node_1;
            if cs.len() == 3 || cs.len() == 5 {
                assert(tree_eq(cs[0], ds[0]));
                assert(tree_eq(cs[1], ds[1]));
                assert(tree_eq(cs[2], ds[2]));
                lemma_name_eq(cs[1], ds[1]);
            }
            if cs.len() == 5 {
                assert(tree_eq(cs[3], ds[3]));
                assert(tree_eq(cs[4], ds[4]));
                lemma_terms_eq(cs[3], ds[3]);
            }
        },
        _ => {},
    }
}

/// Trees with the same labels, leaves and shape convert to the same formula.
pub proof fn lemma_formula_eq(a: ParseTree, b: ParseTree)
    requires
        tree_eq(a, b),
    ensures
        formula_of(a) == formula_of(b),
    decreases a,
{
    match a {
        ParseTree::Node(_, cs) => {
            let ds = b->Node_1;
            if cs.len() == 1 {
                assert(tree_eq(cs[0], ds[0]));
                lemma_relation_eq(cs[0], ds[0]);
                match cs[0] {
                    ParseTree::Node(_, ks) => {
                        let ls = ds[0]->Node_1;
                        assert(forall|i: int| 0 <= i < ks.len() ==> tree_eq(#[trigger] ks[i], ls[i]));
                        if ks.len() > 0 {
                            assert(tree_eq(ks[0], ls[0]));
                        }
                        if ks.len() >= 3 {
                            assert(tree_eq(ks[1], ls[1]));
                            assert(tree_eq(ks[2], ls[2]));
                            lemma_formula_eq(ks[1], ls[1]);
                            lemma_name_eq(ks[1], ls[1]);
                        }
                        if ks.len() == 5 {
                            assert(tree_eq(ks[3], ls[3]));
                            assert(tree_eq(ks[4], ls[4]));
                            lemma_formula_eq(ks[3], ls[3]);
                        }
                    },
                    _ => {},
                }
            }
        },
        _ => {},
    }
}

/// A tree that converts to a formula derives exactly that formula's text, and
/// every name in the formula is well formed.
#[verifier::rlimit(60)]
pub proof fn lemma_formula_text(t: ParseTree)
    requires
        formula_of(t) is Some,
    ensures
        wf(formula_of(t)->0),
        leaves(t) == text_of(formula_of(t)->0),
    decreases t,
{
    reveal_strlit("T");
    reveal_strlit("F");
    reveal_strlit("And (");
    reveal_strlit("Or (");
    reveal_strlit("Implies (");
    reveal_strlit(") (");
    reveal_strlit(")");
    reveal_strlit(" (");
    reveal_strlit("Exists ");
    reveal_strlit("Forall ");
    let cs = t->Node_1;
    lemma_node_leaves(t);
    let k = cs[0]->Node_0;
    let ks = cs[0]->Node_1;
    lemma_node_leaves(cs[0]);
    let f = formula_of(t)->0;
    assert(leaves(t) =~= leaves(cs[0]));
    if k@ == "<true>"@ && ks.len() == 1 && leaf_is(ks[0], "T"@) {
        assert(leaves(cs[0]) =~= leaves(ks[0]));
    } else if k@ == "<false>"@ && ks.len() == 1 && leaf_is(ks[0], "F"@) {
        assert(leaves(cs[0]) =~= leaves(ks[0]));
    } else if k@ == "<rel>"@ {
        lemma_relation_text(cs[0]);
    } else if binary_keyword(k@) is Some && ks.len() == 5 && leaf_is(ks[0], binary_keyword(k@)->0)
        && leaf_is(ks[2], ") ("@) && leaf_is(ks[4], ")"@) {
        lemma_formula_text(ks[1]);
        lemma_formula_text(ks[3]);
        assert(leaves(cs[0]) =~= leaves(ks[0]) + leaves(ks[1]) + leaves(ks[2]) + leaves(ks[3])
            + leaves(ks[4]));
        assert(leaves(cs[0]) =~= text_of(f));
    } else {
        lemma_name_text(ks[1]);
        lemma_formula_text(ks[3]);
        assert(leaves(cs[0]) =~= leaves(ks[0]) + leaves(ks[1]) + leaves(ks[2]) + leaves(ks[3])
            + leaves(ks[4]));
        assert(leaves(cs[0]) =~= text_of(f));
    }
}

/// `s` is the label of a node of the tree or the text of one of its leaves.
pub open spec fn has_label(t: ParseTree, s: Seq<char>) -> bool
    decreases t,
{
    match t {
        ParseTree::Leaf(x) => x@ == s,
        ParseTree::Node(l, cs) => l@ == s || exists|i: int|
            0 <= i < cs.len() && has_label(#[trigger] cs[i], s),
    }
}

proof fn lemma_label_child(t: ParseTree, i: int, s: Seq<char>)
    requires
        t is Node,
        0 <= i < t->Node_1.len(),
        t->Node_1[i] is Leaf ==> t->Node_1[i]->Leaf_0@ == s,
        t->Node_1[i] is Node ==> t->Node_1[i]->Node_0@ == s,
    ensures
        has_label(t, s),
{
    assert(has_label(t->Node_1[i], s));
}

/// A label of the `j`-th child of the tree's first child is a label of the tree.
proof fn lemma_label_below(t: ParseTree, j: int, s: Seq<char>)
    requires
        t is Node,
        t->Node_1.len() > 0,
        t->Node_1[0] is Node,
        0 <= j < t->Node_1[0]->Node_1.len(),
        has_label(t->Node_1[0]->Node_1[j], s),
    ensures
        has_label(t, s),
{
    assert(has_label(t->Node_1[0], s));
    assert(has_label(t, s));
}

/// Whether a string holds exactly the characters of `lit`.
fn text_is(s: &String, lit: &str) -> (r: bool)
    ensures
        r == (s@ == lit@),
{
    let a = s.as_str();
    let n = a.unicode_len();
    if n != lit.unicode_len() {
        return false;
    }
    let mut i: usize = 0;
    while i < n
        invariant
            n == a@.len(),
            n == lit@.len(),
            a@ == s@,
            i <= n,
            forall|j: int| 0 <= j < i ==> a@[j] == lit@[j],
        decreases n - i,
    {
        if a.get_char(i) != lit.get_char(i) {
            return false;
        }
        i = i + 1;
    }
    assert(s@ =~= lit@);
    true
}

fn is_leaf(t: &ParseTree, lit: &str) -> (r: bool)
    ensures
        r == leaf_is(*t, lit@),
{
    match t {
        ParseTree::Leaf(s) => text_is(s, lit),
        ParseTree::Node(_, _) => false,
    }
}

/// The label of a node, or the text of a leaf: what an error reports.
fn label_of(t: &ParseTree) -> (r: String)
    ensures
        has_label(*t, r@),
{
    match t {
        ParseTree::Leaf(s) => s.clone(),
        ParseTree::Node(l, _) => l.clone(),
    }
}

fn build_char(t: &ParseTree) -> (r: Option<&str>)
    ensures
        char_of(*t) is Some <==> r is Some,
        r is Some ==> r->0@ == seq![char_of(*t)->0],
{
    if let ParseTree::Node(l, cs) = t {
        if text_is(l, "<char>") && cs.len() == 1 {
            if let ParseTree::Leaf(s) = &cs[0] {
                let a = s.as_str();
                if a.unicode_len() == 1 {
                    let c = a.get_char(0);
                    if ('a' <= c && c <= 'z') || ('A' <= c && c <= 'Z') || ('0' <= c && c <= '9') {
                        assert(a@ =~= seq![c]);
                        return Some(a);
                    }
                }
            }
        }
    }
    None
}

fn build_chars(t: &ParseTree) -> (r: Option<String>)
    ensures
        r is Some <==> chars_of(*t) is Some,
        r is Some ==> r->0@ == chars_of(*t)->0,
    decreases t,
{
    if let ParseTree::Node(l, cs) = t {
        if text_is(l, "<chars>") && cs.len() == 1 {
            if let Some(c) = build_char(&cs[0]) {
                return Some(String::from_str(c));
            }
        } else if text_is(l, "<chars>") && cs.len() == 2 {
            if let Some(c) = build_char(&cs[0]) {
                if let Some(rest) = build_chars(&cs[1]) {
                    let mut name = String::from_str(c);
                    name.append(rest.as_str());
                    return Some(name);
                }
            }
        }
    }
    None
}

fn build_name(t: &ParseTree) -> (r: Option<String>)
    ensures
        r is Some <==> name_of(*t) is Some,
        r is Some ==> r->0@ == name_of(*t)->0,
{
    if let ParseTree::Node(l, cs) = t {
        if text_is(l, "<name>") && cs.len() == 3 && is_leaf(&cs[0], "\"") && is_leaf(&cs[2], "\"") {
            return build_chars(&cs[1]);
        }
    }
    None
}

fn build_var(t: &ParseTree) -> (r: Option<Term>)
    ensures
        r is Some <==> var_of(*t) is Some,
        r is Some ==> r->0@ == var_of(*t)->0,
{
    if let ParseTree::Node(l, cs) = t {
        if text_is(l, "<var>") && cs.len() == 2 && is_leaf(&cs[0], "Var ") {
            if let Some(n) = build_name(&cs[1]) {
                return Some(Term::Var(n));
            }
        }
    }
    None
}

fn build_terms(t: &ParseTree) -> (r: Option<Vec<Term>>)
    ensures
        r is Some <==> terms_of(*t) is Some,
        r is Some ==> r->0@.map_values(|x: Term| x@) == terms_of(*t)->0,
    decreases t,
{
    if let ParseTree::Node(l, cs) = t {
        if text_is(l, "<terms>") && cs.len() == 1 {
            if let Some(v) = build_var(&cs[0]) {
                let mut ts: Vec<Term> = Vec::new();
                ts.push(v);
                assert(ts@.map_values(|x: Term| x@) =~= terms_of(*t)->0);
                return Some(ts);
            }
        } else if text_is(l, "<terms>") && cs.len() == 3 && is_leaf(&cs[1], ", ") {
            if let Some(v) = build_var(&cs[0]) {
                if let Some(rest) = build_terms(&cs[2]) {
                    let mut ts: Vec<Term> = Vec::new();
                    ts.push(v);
                    let mut rest = rest;
                    ts.append(&mut rest);
                    assert(ts@.map_values(|x: Term| x@) =~= terms_of(*t)->0);
                    return Some(ts);
                }
            }
        }
    }
    None
}

fn build_relation(t: &ParseTree) -> (r: Option<Formula>)
    ensures
        r is Some <==> relation_of(*t) is Some,
        r is Some ==> r->0@ == relation_of(*t)->0,
{
    if let ParseTree::Node(l, cs) = t {
        if text_is(l, "<rel>") && cs.len() == 3 && is_leaf(&cs[0], "Rel ") && is_leaf(&cs[2], " []") {
            if let Some(n) = build_name(&cs[1]) {
                let ts: Vec<Term> = Vec::new();
                assert(ts@.map_values(|x: Term| x@) =~= seq![]);
                return Some(Formula::Relation(n, ts));
            }
        } else if text_is(l, "<rel>") && cs.len() == 5 && is_leaf(&cs[0], "Rel ") && is_leaf(
            &cs[2],
            " [",
        ) && is_leaf(&cs[4], "]") {
            if let Some(n) = build_name(&cs[1]) {
                if let Some(ts) = build_terms(&cs[3]) {
                    return Some(Formula::Relation(n, ts));
                }
            }
        }
    }
    None
}

/// Converts a parse tree into the formula that it derives.
pub fn build_formula(t: &ParseTree) -> (r: Result<Formula, ParseError>)
    ensures
        r is Ok <==> formula_of(*t) is Some,
        r is Ok ==> formula_of(*t) == Some(r->Ok_0@),
        r is Err ==> r->Err_0 is StructuralConversion && has_label(
            *t,
            r->Err_0->StructuralConversion_0@,
        ),
    decreases t,
{
    let cs = match t {
        ParseTree::Node(l, cs) => {
            if !(text_is(l, "<formula>") && cs.len() == 1) {
                return Err(ParseError::StructuralConversion(l.clone()));
            }
            cs
        },
        ParseTree::Leaf(s) => {
            return Err(ParseError::StructuralConversion(s.clone()));
        },
    };
    let inner = &cs[0];
    let (k, ks) = match inner {
        ParseTree::Node(k, ks) => (k, ks),
        ParseTree::Leaf(s) => {
            proof {
                lemma_label_child(*t, 0, s@);
            }
            return Err(ParseError::StructuralConversion(s.clone()));
        },
    };
    if text_is(k, "<true>") && ks.len() == 1 && is_leaf(&ks[0], "T") {
        return Ok(Formula::True);
    }
    if text_is(k, "<false>") && ks.len() == 1 && is_leaf(&ks[0], "F") {
        return Ok(Formula::False);
    }
    if text_is(k, "<rel>") {
        return match build_relation(inner) {
            Some(f) => Ok(f),
            None => {
                proof {
                    lemma_label_child(*t, 0, k@);
                }
                Err(ParseError::StructuralConversion(k.clone()))
            },
        };
    }
    let is_and = text_is(k, "<and>");
    let is_or = text_is(k, "<or>");
    let is_implies = text_is(k, "<implies>");
    if (is_and || is_or || is_implies) && ks.len() == 5 && is_leaf(
        &ks[0],
        if is_and {
            "And ("
        } else if is_or {
            "Or ("
        } else {
            "Implies ("
        },
    ) && is_leaf(&ks[2], ") (") && is_leaf(&ks[4], ")") {
        let a = match build_formula(&ks[1]) {
            Ok(a) => a,
            Err(e) => {
                proof {
                    lemma_label_below(*t, 1, e->StructuralConversion_0@);
                }
                return Err(e);
            },
        };
        let b = match build_formula(&ks[3]) {
            Ok(b) => b,
            Err(e) => {
                proof {
                    lemma_label_below(*t, 3, e->StructuralConversion_0@);
                }
                return Err(e);
            },
        };
        return Ok(
            if is_and {
                Formula::And(Box::new(a), Box::new(b))
            } else if is_or {
                Formula::Or(Box::new(a), Box::new(b))
            } else {
                Formula::Implies(Box::new(a), Box::new(b))
            },
        );
    }
    let is_exists = text_is(k, "<exists>");
    let is_forall = text_is(k, "<forall>");
    if (is_exists || is_forall) && ks.len() == 5 && is_leaf(
        &ks[0],
        if is_exists {
            "Exists "
        } else {
            "Forall "
        },
    ) && is_leaf(&ks[2], " (") && is_leaf(&ks[4], ")") {
        let v = match build_name(&ks[1]) {
            Some(v) => v,
            None => {
                let m = label_of(&ks[1]);
                proof {
                    lemma_label_below(*t, 1, m@);
                }
                return Err(ParseError::StructuralConversion(m));
            },
        };
        let b = match build_formula(&ks[3]) {
            Ok(b) => b,
            Err(e) => {
                proof {
                    lemma_label_below(*t, 3, e->StructuralConversion_0@);
                }
                return Err(e);
            },
        };
        return Ok(
            if is_exists {
                Formula::Exists(v, Box::new(b))
            } else {
                Formula::Forall(v, Box::new(b))
            },
        );
    }
    proof {
        lemma_label_child(*t, 0, k@);
    }
    Err(ParseError::StructuralConversion(k.clone()))
}

/// A parse tree written out in pre-order: a node opens with its label, then come
/// its children, then it closes.
#[derive(Debug)]
pub(crate) enum TreeToken {
    Open(String),
    Leaf(String),
    Close,
}

/// The tokens that write out a tree in pre-order.
pub(crate) open spec fn written(t: ParseTree) -> Seq<TreeToken>
    decreases t,
{
    match t {
        ParseTree::Leaf(s) => seq![TreeToken::Leaf(s)],
        ParseTree::Node(l, cs) => seq![TreeToken::Open(l)] + written_upto(cs, cs.len() as nat)
            + seq![TreeToken::Close],
    }
}

/// The tokens of the first `n` trees of `cs`, one after another.
pub(crate) open spec fn written_upto(cs: Vec<ParseTree>, n: nat) -> Seq<TreeToken>
    decreases cs, n,
{
    if n == 0 || n > cs.len() {
        seq![]
    } else {
        written_upto(cs, (n - 1) as nat) + written(cs[n - 1])
    }
}

/// Two trees with the same labels, leaves and shape.
pub open spec fn tree_eq(a: ParseTree, b: ParseTree) -> bool
    decreases a,
{
    match a {
        ParseTree::Leaf(x) => b is Leaf && x == b->Leaf_0,
        ParseTree::Node(l, cs) => b is Node && l == b->Node_0 && cs.len() == b->Node_1.len() && (
        forall|i: int| 0 <= i < cs.len() ==> tree_eq(#[trigger] cs[i], b->Node_1[i])),
    }
}

proof fn lemma_written_prefix(cs: Vec<ParseTree>, k: nat, n: nat)
    requires
        k <= n <= cs.len(),
    ensures
        written_upto(cs, k).len() <= written_upto(cs, n).len(),
        written_upto(cs, n).subrange(0, written_upto(cs, k).len() as int) == written_upto(cs, k),
    decreases n,
{
    if k < n {
        lemma_written_prefix(cs, k, (n - 1) as nat);
        assert(written_upto(cs, n).subrange(0, written_upto(cs, k).len() as int) =~= written_upto(
            cs,
            (n - 1) as nat,
        ).subrange(0, written_upto(cs, k).len() as int));
    } else {
        assert(written_upto(cs, n).subrange(0, written_upto(cs, k).len() as int) =~= written_upto(
            cs,
            k,
        ));
    }
}

/// Where the tokens of a node sit at `pos`, the tokens of its `k`-th child
/// follow those of the children before it.
proof fn lemma_child_tokens(toks: Seq<TreeToken>, pos: int, t: ParseTree, k: nat)
    requires
        t is Node,
        0 <= pos,
        pos + written(t).len() <= toks.len(),
        toks.subrange(pos, pos + written(t).len()) == written(t),
        k <= t->Node_1.len(),
    ensures
        ({
            let cs = t->Node_1;
            let c = pos + 1 + written_upto(cs, k).len();
            &&& k < cs.len() ==> {
                &&& c + written(cs[k as int]).len() == pos + 1 + written_upto(cs, k + 1).len()
                &&& c + written(cs[k as int]).len() < pos + written(t).len()
                &&& toks.subrange(c, c + written(cs[k as int]).len()) == written(cs[k as int])
                &&& !(toks[c] is Close)
                &&& c < toks.len()
            }
            &&& k == cs.len() ==> c < toks.len() && toks[c] is Close && c + 1 == pos + written(
                t,
            ).len()
        }),
{
    let cs = t->Node_1;
    let n = cs.len() as nat;
    let w = written(t);
    let wn = written_upto(cs, n);
    let c = pos + 1 + written_upto(cs, k).len();
    assert(w == seq![TreeToken::Open(t->Node_0)] + wn + seq![TreeToken::Close]);
    assert forall|j: int| 0 <= j < w.len() implies toks[pos + j] == w[j] by {
        assert(toks.subrange(pos, pos + w.len())[j] == toks[pos + j]);
    }
    if k < n {
        lemma_written_prefix(cs, k, n);
        lemma_written_prefix(cs, k + 1, n);
        let wk = written_upto(cs, k);
        let wk1 = written_upto(cs, k + 1);
        let wc = written(cs[k as int]);
        assert(wk1 == wk + wc);
        assert forall|j: int| 0 <= j < wc.len() implies toks.subrange(c, c + wc.len())[j] == wc[j] by {
            assert(wk1[wk.len() + j] == wc[j]);
            assert(wn.subrange(0, wk1.len() as int)[wk.len() + j] == wc[j]);
            assert(w[1 + wk.len() + j] == wn[wk.len() + j]);
            assert(toks[c + j] == w[1 + wk.len() + j]);
        }
        assert(toks.subrange(c, c + wc.len()) =~= wc);
        assert(wc[0] is Open || wc[0] is Leaf);
        assert(toks[c] == wc[0]) by {
            assert(wn.subrange(0, wk1.len() as int)[wk.len() as int] == wc[0]);
            assert(w[1 + wk.len() as int] == wn[wk.len() as int]);
        }
    } else {
        assert(w[1 + wn.len() as int] == TreeToken::Close);
        assert(toks[c] == w[1 + wn.len() as int]);
    }
}

/// Reads from `pos` the tree whose tokens stand there: it comes back equal to
/// that tree, with the position after its tokens.
fn decode_at(toks: &Vec<TreeToken>, pos: usize, Ghost(t): Ghost<ParseTree>) -> (r: Option<
    (ParseTree, usize),
>)
    requires
        pos + written(t).len() <= toks.len(),
        toks@.subrange(pos as int, pos + written(t).len()) == written(t),
    ensures
        match r {
            Some((tr, end)) => end == pos + written(t).len() && tree_eq(tr, t),
            None => false,
        },
    decreases t,
{
    assert(toks@[pos as int] == written(t)[0]) by {
        assert(toks@.subrange(pos as int, pos + written(t).len())[0] == toks@[pos as int]);
    }
    match &toks[pos] {
        TreeToken::Leaf(s) => Some((ParseTree::Leaf(s.clone()), pos + 1)),
        TreeToken::Close => None,
        TreeToken::Open(l) => {
            let ghost cs = t->Node_1;
            let mut children: Vec<ParseTree> = Vec::new();
            let mut cur: usize = pos + 1;
            proof {
                lemma_child_tokens(toks@, pos as int, t, 0);
            }
            while cur < toks.len() && !matches!(toks[cur], TreeToken::Close)
                invariant
                    t is Node,
                    cs == t->Node_1,
                    *l == t->Node_0,
                    pos + written(t).len() <= toks.len(),
                    toks@.subrange(pos as int, pos + written(t).len()) == written(t),
                    children.len() <= cs.len(),
                    cur == pos + 1 + written_upto(cs, children.len() as nat).len(),
                    forall|i: int| 0 <= i < children.len() ==> tree_eq(#[trigger] children[i], cs[i]),
                decreases cs.len() - children.len(),
            {
                let ghost k = children.len() as nat;
                proof {
                    lemma_child_tokens(toks@, pos as int, t, k);
                    if k == cs.len() {
                        assert(toks@[cur as int] is Close);
                        assert(false);
                    }
                }
                let (c, next) = match decode_at(toks, cur, Ghost(cs[k as int])) {
                    Some(x) => x,
                    None => {
                        return None;
                    },
                };
                children.push(c);
                cur = next;
            }
            proof {
                lemma_child_tokens(toks@, pos as int, t, children.len() as nat);
            }
            Some((ParseTree::Node(l.clone(), children), cur + 1))
        },
    }
}

/// Rebuilds the tree that the tokens write out.
pub(crate) fn tree_from_tokens(toks: &Vec<TreeToken>, Ghost(t): Ghost<ParseTree>) -> (r: ParseTree)
    requires
        written(t) == toks@,
    ensures
        tree_eq(r, t),
{
    assert(toks@.subrange(0, written(t).len() as int) =~= toks@);
    match decode_at(toks, 0, Ghost(t)) {
        Some((r, _)) => r,
        None => ParseTree::Leaf(String::new()),
    }
}

} // verus!

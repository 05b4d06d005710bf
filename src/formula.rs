//! The formula syntax tree, its mathematical model and its surface text.
use vstd::prelude::*;

verus! {

/// A first-order term.
#[derive(Debug, PartialEq, Eq)]
pub enum Term {
    Var(String),
}

/// A first-order formula.
#[derive(Debug, PartialEq, Eq)]
pub enum Formula {
    True,
    False,
    Relation(String, Vec<Term>),
    And(Box<Formula>, Box<Formula>),
    Or(Box<Formula>, Box<Formula>),
    Implies(Box<Formula>, Box<Formula>),
    /// Negation. The grammar gives it no surface syntax, so no parse yields it.
    Not(Box<Formula>),
    Exists(String, Box<Formula>),
    Forall(String, Box<Formula>),
}

/// The mathematical value of a `Term`.
pub enum TermModel {
    Var(Seq<char>),
}

/// The mathematical value of a `Formula`: names are character sequences.
pub enum FormulaModel {
    True,
    False,
    Relation(Seq<char>, Seq<TermModel>),
    And(Box<FormulaModel>, Box<FormulaModel>),
    Or(Box<FormulaModel>, Box<FormulaModel>),
    Implies(Box<FormulaModel>, Box<FormulaModel>),
    Not(Box<FormulaModel>),
    Exists(Seq<char>, Box<FormulaModel>),
    Forall(Seq<char>, Box<FormulaModel>),
}

impl View for Term {
    type V = TermModel;

    open spec fn view(&self) -> TermModel {
        match self {
            Term::Var(n) => TermModel::Var(n@),
        }
    }
}

pub open spec fn model_of(f: Formula) -> FormulaModel
    decreases f,
{
    match f {
        Formula::True => FormulaModel::True,
        Formula::False => FormulaModel::False,
        Formula::Relation(n, args) => FormulaModel::Relation(n@, args@.map_values(|t: Term| t@)),
        Formula::And(a, b) => FormulaModel::And(Box::new(model_of(*a)), Box::new(model_of(*b))),
        Formula::Or(a, b) => FormulaModel::Or(Box::new(model_of(*a)), Box::new(model_of(*b))),
        Formula::Implies(a, b) => FormulaModel::Implies(
            Box::new(model_of(*a)),
            Box::new(model_of(*b)),
        ),
        Formula::Not(a) => FormulaModel::Not(Box::new(model_of(*a))),
        Formula::Exists(v, b) => FormulaModel::Exists(v@, Box::new(model_of(*b))),
        Formula::Forall(v, b) => FormulaModel::Forall(v@, Box::new(model_of(*b))),
    }
}

impl View for Formula {
    type V = FormulaModel;

    open spec fn view(&self) -> FormulaModel {
        model_of(*self)
    }
}

/// A character that may stand in a name: an ASCII letter or digit.
pub open spec fn is_name_char(c: char) -> bool {
    ('a' <= c && c <= 'z') || ('A' <= c && c <= 'Z') || ('0' <= c && c <= '9')
}

/// A name of a relation or a variable: one or more letters or digits.
pub open spec fn is_name(n: Seq<char>) -> bool {
    n.len() > 0 && forall|i: int| 0 <= i < n.len() ==> is_name_char(#[trigger] n[i])
}

pub open spec fn terms_wf(ts: Seq<TermModel>) -> bool {
    forall|i: int| 0 <= i < ts.len() ==> (match #[trigger] ts[i] {
        TermModel::Var(n) => is_name(n),
    })
}

/// Every name in the formula is a well-formed name, and the formula has a
/// text: negation, which the grammar does not write, has none.
pub open spec fn wf(f: FormulaModel) -> bool
    decreases f,
{
    match f {
        FormulaModel::True | FormulaModel::False => true,
        FormulaModel::Relation(n, args) => is_name(n) && terms_wf(args),
        FormulaModel::And(a, b) | FormulaModel::Or(a, b) | FormulaModel::Implies(a, b) => wf(*a)
            && wf(*b),
        FormulaModel::Not(_) => false,
        FormulaModel::Exists(v, b) | FormulaModel::Forall(v, b) => is_name(v) && wf(*b),
    }
}

/// A name as written: between double quotes.
pub open spec fn quoted(n: Seq<char>) -> Seq<char> {
    seq!['"'] + (n + seq!['"'])
}

pub open spec fn term_text(t: TermModel) -> Seq<char> {
    match t {
        TermModel::Var(n) => seq!['V', 'a', 'r', ' '] + quoted(n),
    }
}

/// A list of terms as written between the brackets: separated by `, `.
pub open spec fn terms_text(ts: Seq<TermModel>) -> Seq<char>
    decreases ts.len(),
{
    if ts.len() == 0 {
        seq![]
    } else if ts.len() == 1 {
        term_text(ts[0])
    } else {
        term_text(ts[0]) + (seq![',', ' '] + terms_text(ts.drop_first()))
    }
}

/// The one text that the grammar gives to a formula.
pub open spec fn text_of(f: FormulaModel) -> Seq<char>
    decreases f,
{
    match f {
        FormulaModel::True => seq!['T'],
        FormulaModel::False => seq!['F'],
        FormulaModel::Relation(n, args) => seq!['R', 'e', 'l', ' '] + (quoted(n) + (seq![' ', '[']
            + (terms_text(args) + seq![']']))),
        FormulaModel::And(a, b) => seq!['A', 'n', 'd', ' ', '('] + binary_tail(text_of(*a), text_of(*b)),
        FormulaModel::Or(a, b) => seq!['O', 'r', ' ', '('] + binary_tail(text_of(*a), text_of(*b)),
        FormulaModel::Implies(a, b) => seq!['I', 'm', 'p', 'l', 'i', 'e', 's', ' ', '(']
            + binary_tail(text_of(*a), text_of(*b)),
        FormulaModel::Not(_) => seq![],
        FormulaModel::Exists(v, b) => seq!['E', 'x', 'i', 's', 't', 's', ' '] + quantifier_tail(v, text_of(*b)),
        FormulaModel::Forall(v, b) => seq!['F', 'o', 'r', 'a', 'l', 'l', ' '] + quantifier_tail(v, text_of(*b)),
    }
}

/// What follows the opening parenthesis of a binary connective.
pub open spec fn binary_tail(a: Seq<char>, b: Seq<char>) -> Seq<char> {
    a + (seq![')', ' ', '('] + (b + seq![')']))
}

/// What follows a quantifier's keyword: the quoted variable and the body.
pub open spec fn quantifier_tail(v: Seq<char>, body: Seq<char>) -> Seq<char> {
    quoted(v) + (seq![' ', '('] + (body + seq![')']))
}

/// What may follow a sub-formula in the text: nothing, or a closing parenthesis.
pub open spec fn ends_operand(s: Seq<char>) -> bool {
    s.len() == 0 || s[0] == ')'
}

proof fn lemma_strip(k: Seq<char>, a: Seq<char>, b: Seq<char>)
    requires
        k + a == k + b,
    ensures
        a == b,
{
    assert(a =~= (k + a).skip(k.len() as int));
    assert(b =~= (k + b).skip(k.len() as int));
}

/// Two quoted names followed by any text: the closing quote fixes where each name ends.
proof fn lemma_quoted_unique(v1: Seq<char>, v2: Seq<char>, r1: Seq<char>, r2: Seq<char>)
    requires
        is_name(v1),
        is_name(v2),
        quoted(v1) + r1 == quoted(v2) + r2,
    ensures
        v1 == v2,
        r1 == r2,
{
    let x = quoted(v1) + r1;
    assert(x == seq!['"'] + (v1 + (seq!['"'] + r1))) by {
        assert(quoted(v1) + r1 =~= seq!['"'] + (v1 + (seq!['"'] + r1)));
    }
    assert(x == seq!['"'] + (v2 + (seq!['"'] + r2))) by {
        assert(quoted(v2) + r2 =~= seq!['"'] + (v2 + (seq!['"'] + r2)));
    }
    if v1.len() < v2.len() {
        assert(x[1 + v1.len() as int] == '"');
        assert(x[1 + v1.len() as int] == v2[v1.len() as int]);
        assert(false);
    } else if v2.len() < v1.len() {
        assert(x[1 + v2.len() as int] == '"');
        assert(x[1 + v2.len() as int] == v1[v2.len() as int]);
        assert(false);
    }
    assert forall|i: int| 0 <= i < v1.len() implies v1[i] == v2[i] by {
        assert(x[1 + i] == v1[i]);
        assert(x[1 + i] == v2[i]);
    }
    assert(v1 =~= v2);
    lemma_strip(quoted(v1), r1, r2);
}

/// A list of terms closed by a bracket is read back in one way only.
proof fn lemma_terms_unique(ts1: Seq<TermModel>, ts2: Seq<TermModel>, s1: Seq<char>, s2: Seq<char>)
    requires
        terms_wf(ts1),
        terms_wf(ts2),
        s1.len() > 0 && s1[0] == ']',
        s2.len() > 0 && s2[0] == ']',
        terms_text(ts1) + s1 == terms_text(ts2) + s2,
    ensures
        ts1 == ts2,
        s1 == s2,
    decreases ts1.len(),
{
    let x = terms_text(ts1) + s1;
    if ts1.len() == 0 {
        if ts2.len() > 0 {
            assert(x[0] == ']');
            assert(x[0] == 'V');
        }
        assert(ts1 =~= ts2);
        lemma_strip(seq![], s1, s2);
        assert(s1 =~= seq![] + s1);
        assert(s2 =~= seq![] + s2);
    } else {
        if ts2.len() == 0 {
            assert(x[0] == ']');
            assert(x[0] == 'V');
        }
        let rest1 = if ts1.len() == 1 {
            s1
        } else {
            seq![',', ' '] + (terms_text(ts1.drop_first()) + s1)
        };
        let rest2 = if ts2.len() == 1 {
            s2
        } else {
            seq![',', ' '] + (terms_text(ts2.drop_first()) + s2)
        };
        let TermModel::Var(n1) = ts1[0];
        let TermModel::Var(n2) = ts2[0];
        assert(terms_text(ts1) + s1 =~= seq!['V', 'a', 'r', ' '] + (quoted(n1) + rest1));
        assert(terms_text(ts2) + s2 =~= seq!['V', 'a', 'r', ' '] + (quoted(n2) + rest2));
        lemma_strip(seq!['V', 'a', 'r', ' '], quoted(n1) + rest1, quoted(n2) + rest2);
        lemma_quoted_unique(n1, n2, rest1, rest2);
        if ts1.len() == 1 && ts2.len() > 1 {
            assert(rest1[0] == ']');
            assert(rest2[0] == ',');
        }
        if ts2.len() == 1 && ts1.len() > 1 {
            assert(rest2[0] == ']');
            assert(rest1[0] == ',');
        }
        if ts1.len() > 1 {
            lemma_strip(
                seq![',', ' '],
                terms_text(ts1.drop_first()) + s1,
                terms_text(ts2.drop_first()) + s2,
            );
            lemma_terms_unique(ts1.drop_first(), ts2.drop_first(), s1, s2);
        }
        assert(ts1 =~= seq![ts1[0]] + ts1.drop_first());
        assert(ts2 =~= seq![ts2[0]] + ts2.drop_first());
    }
}

/// Unique readability: a well-formed formula's text, followed by nothing or by a
/// closing parenthesis, determines the formula and what follows it.
pub proof fn lemma_text_unique(f1: FormulaModel, f2: FormulaModel, s1: Seq<char>, s2: Seq<char>)
    requires
        wf(f1),
        wf(f2),
        ends_operand(s1),
        ends_operand(s2),
        text_of(f1) + s1 == text_of(f2) + s2,
    ensures
        f1 == f2,
        s1 == s2,
    decreases f1, 1nat,
{
    let x = text_of(f1) + s1;
    assert(text_of(f1).len() > 0);
    assert(text_of(f2).len() > 0);
    assert(x[0] == text_of(f1)[0]);
    assert(x[0] == text_of(f2)[0]);
    match (f1, f2) {
        (FormulaModel::True, FormulaModel::True) | (FormulaModel::False, FormulaModel::False) => {
            lemma_strip(text_of(f1), s1, s2);
        },
        (FormulaModel::False, FormulaModel::Forall(_, _)) => {
            assert(text_of(f2)[1] == 'o');
            assert(x[1] == 'o');
            assert(false);
        },
        (FormulaModel::Forall(_, _), FormulaModel::False) => {
            assert(text_of(f1)[1] == 'o');
            assert(x[1] == 'o');
            assert(false);
        },
        (FormulaModel::Relation(n1, a1), FormulaModel::Relation(n2, a2)) => {
            let k = seq!['R', 'e', 'l', ' '];
            let r1 = seq![' ', '['] + (terms_text(a1) + (seq![']'] + s1));
            let r2 = seq![' ', '['] + (terms_text(a2) + (seq![']'] + s2));
            assert(x =~= k + (quoted(n1) + r1));
            assert(text_of(f2) + s2 =~= k + (quoted(n2) + r2));
            lemma_strip(k, quoted(n1) + r1, quoted(n2) + r2);
            lemma_quoted_unique(n1, n2, r1, r2);
            lemma_strip(seq![' ', '['], terms_text(a1) + (seq![']'] + s1), terms_text(a2) + (seq![']'] + s2));
            lemma_terms_unique(a1, a2, seq![']'] + s1, seq![']'] + s2);
            lemma_strip(seq![']'], s1, s2);
        },
        (FormulaModel::And(a1, b1), FormulaModel::And(a2, b2)) => {
            lemma_binary_unique(f1, seq!['A', 'n', 'd', ' ', '('], *a1, *b1, *a2, *b2, s1, s2);
        },
        (FormulaModel::Or(a1, b1), FormulaModel::Or(a2, b2)) => {
            lemma_binary_unique(f1, seq!['O', 'r', ' ', '('], *a1, *b1, *a2, *b2, s1, s2);
        },
        (FormulaModel::Implies(a1, b1), FormulaModel::Implies(a2, b2)) => {
            let k = seq!['I', 'm', 'p', 'l', 'i', 'e', 's', ' ', '('];
            lemma_binary_unique(f1, k, *a1, *b1, *a2, *b2, s1, s2);
        },
        (FormulaModel::Exists(v1, b1), FormulaModel::Exists(v2, b2)) => {
            lemma_quantifier_split(seq!['E', 'x', 'i', 's', 't', 's', ' '], v1, text_of(*b1), v2, text_of(*b2), s1, s2);
            lemma_text_unique(*b1, *b2, seq![')'] + s1, seq![')'] + s2);
            lemma_strip(seq![')'], s1, s2);
        },
        (FormulaModel::Forall(v1, b1), FormulaModel::Forall(v2, b2)) => {
            lemma_quantifier_split(seq!['F', 'o', 'r', 'a', 'l', 'l', ' '], v1, text_of(*b1), v2, text_of(*b2), s1, s2);
            lemma_text_unique(*b1, *b2, seq![')'] + s1, seq![')'] + s2);
            lemma_strip(seq![')'], s1, s2);
        },
        _ => {
            assert(false);
        },
    }
}

/// The operands of two binary connectives, of parent `f1`, under one keyword.
proof fn lemma_binary_unique(
    f1: FormulaModel,
    k: Seq<char>,
    a1: FormulaModel,
    b1: FormulaModel,
    a2: FormulaModel,
    b2: FormulaModel,
    s1: Seq<char>,
    s2: Seq<char>,
)
    requires
        decreases_to!(f1 => a1),
        decreases_to!(f1 => b1),
        wf(a1) && wf(b1) && wf(a2) && wf(b2),
        ends_operand(s1),
        ends_operand(s2),
        (k + binary_tail(text_of(a1), text_of(b1))) + s1 == (k + binary_tail(text_of(a2), text_of(
            b2,
        ))) + s2,
    ensures
        a1 == a2,
        b1 == b2,
        s1 == s2,
    decreases f1, 0nat,
{
    lemma_binary_split(k, text_of(a1), text_of(b1), text_of(a2), text_of(b2), s1, s2);
    lemma_text_unique(
        a1,
        a2,
        seq![')', ' ', '('] + (text_of(b1) + (seq![')'] + s1)),
        seq![')', ' ', '('] + (text_of(b2) + (seq![')'] + s2)),
    );
    lemma_strip(seq![')', ' ', '('], text_of(b1) + (seq![')'] + s1), text_of(b2) + (seq![')'] + s2));
    lemma_text_unique(b1, b2, seq![')'] + s1, seq![')'] + s2);
    lemma_strip(seq![')'], s1, s2);
}

proof fn lemma_binary_split(
    k: Seq<char>,
    a1: Seq<char>,
    b1: Seq<char>,
    a2: Seq<char>,
    b2: Seq<char>,
    s1: Seq<char>,
    s2: Seq<char>,
)
    requires
        (k + binary_tail(a1, b1)) + s1 == (k + binary_tail(a2, b2)) + s2,
    ensures
        a1 + (seq![')', ' ', '('] + (b1 + (seq![')'] + s1))) == a2 + (seq![')', ' ', '('] + (b2 + (
        seq![')'] + s2))),
{
    assert((k + binary_tail(a1, b1)) + s1 =~= k + (a1 + (seq![')', ' ', '('] + (b1 + (seq![')']
        + s1)))));
    assert((k + binary_tail(a2, b2)) + s2 =~= k + (a2 + (seq![')', ' ', '('] + (b2 + (seq![')']
        + s2)))));
    lemma_strip(
        k,
        a1 + (seq![')', ' ', '('] + (b1 + (seq![')'] + s1))),
        a2 + (seq![')', ' ', '('] + (b2 + (seq![')'] + s2))),
    );
}

proof fn lemma_quantifier_split(
    k: Seq<char>,
    v1: Seq<char>,
    b1: Seq<char>,
    v2: Seq<char>,
    b2: Seq<char>,
    s1: Seq<char>,
    s2: Seq<char>,
)
    requires
        is_name(v1),
        is_name(v2),
        (k + quantifier_tail(v1, b1)) + s1 == (k + quantifier_tail(v2, b2)) + s2,
    ensures
        v1 == v2,
        b1 + (seq![')'] + s1) == b2 + (seq![')'] + s2),
{
    let r1 = seq![' ', '('] + (b1 + (seq![')'] + s1));
    let r2 = seq![' ', '('] + (b2 + (seq![')'] + s2));
    assert((k + quantifier_tail(v1, b1)) + s1 =~= k + (quoted(v1) + r1));
    assert((k + quantifier_tail(v2, b2)) + s2 =~= k + (quoted(v2) + r2));
    lemma_strip(k, quoted(v1) + r1, quoted(v2) + r2);
    lemma_quoted_unique(v1, v2, r1, r2);
    lemma_strip(seq![' ', '('], b1 + (seq![')'] + s1), b2 + (seq![')'] + s2));
}

} // verus!

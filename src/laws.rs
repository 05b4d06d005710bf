//! Laws that relate the results of several parses, and what parsing rejects.
use vstd::prelude::*;
use crate::engine::{is_formula_text, parse_outcome};
use crate::error::ParseError;
use crate::formula::{
    binary_tail, lemma_text_unique, quoted, term_text, terms_text, terms_wf, text_of, wf, is_name, Formula,
    FormulaModel, TermModel,
};

verus! {

/// The text `And (a) (b)`.
pub open spec fn and_text(a: Seq<char>, b: Seq<char>) -> Seq<char> {
    seq!['A', 'n', 'd', ' ', '('] + a + seq![')', ' ', '('] + b + seq![')']
}

/// Parsing is deterministic: two parses of one text both succeed or both
/// fail, and where they succeed they give the same formula.
pub proof fn law_parse_deterministic(
    input: Seq<char>,
    r1: Result<Formula, ParseError>,
    r2: Result<Formula, ParseError>,
)
    requires
        parse_outcome(input, r1),
        parse_outcome(input, r2),
    ensures
        r1 is Ok <==> r2 is Ok,
        r1 is Ok ==> r1->Ok_0@ == r2->Ok_0@,
{
    if r1 is Ok {
        assert(is_formula_text(input) && text_of(r1->Ok_0@) == input);
    }
    if r2 is Ok {
        assert(is_formula_text(input) && text_of(r2->Ok_0@) == input);
    }
    if r1 is Ok && r2 is Ok {
        let (f1, f2) = (r1->Ok_0@, r2->Ok_0@);
        assert(text_of(f1) + seq![] =~= text_of(f2) + seq![]);
        lemma_text_unique(f1, f2, seq![], seq![]);
    }
}

/// Parsing is compositional: where `a` and `b` parse, `And (a) (b)` parses to
/// the conjunction of the two, left operand first.
pub proof fn law_and_composes(
    a: Seq<char>,
    b: Seq<char>,
    ra: Result<Formula, ParseError>,
    rb: Result<Formula, ParseError>,
    rc: Result<Formula, ParseError>,
)
    requires
        parse_outcome(a, ra),
        parse_outcome(b, rb),
        parse_outcome(and_text(a, b), rc),
        ra is Ok,
        rb is Ok,
    ensures
        rc is Ok,
        rc->Ok_0@ == FormulaModel::And(Box::new(ra->Ok_0@), Box::new(rb->Ok_0@)),
{
    let g = FormulaModel::And(Box::new(ra->Ok_0@), Box::new(rb->Ok_0@));
    assert(text_of(g) =~= and_text(a, b));
    assert(wf(g));
    assert(is_formula_text(and_text(a, b)));
    let fc = rc->Ok_0@;
    assert(text_of(fc) + seq![] =~= text_of(g) + seq![]);
    lemma_text_unique(fc, g, seq![], seq![]);
}

/// Opening minus closing parentheses in `s`.
pub open spec fn paren_balance(s: Seq<char>) -> int
    decreases s.len(),
{
    if s.len() == 0 {
        0
    } else {
        paren_balance(s.drop_last()) + paren_step(s.last())
    }
}

/// What one character adds to the balance of parentheses.
pub open spec fn paren_step(c: char) -> int {
    if c == '(' {
        1
    } else if c == ')' {
        -1
    } else {
        0
    }
}

proof fn lemma_balance_push(s: Seq<char>, c: char)
    ensures
        paren_balance(s.push(c)) == paren_balance(s) + paren_step(c),
{
    assert(s.push(c).drop_last() =~= s);
}

proof fn lemma_balance_concat(a: Seq<char>, b: Seq<char>)
    ensures
        paren_balance(a + b) == paren_balance(a) + paren_balance(b),
    decreases b.len(),
{
    if b.len() == 0 {
        assert(a + b =~= a);
    } else {
        lemma_balance_concat(a, b.drop_last());
        assert((a + b).drop_last() =~= a + b.drop_last());
    }
}

proof fn lemma_balance_name(n: Seq<char>)
    requires
        forall|i: int| 0 <= i < n.len() ==> n[i] != '(' && n[i] != ')',
    ensures
        paren_balance(n) == 0,
    decreases n.len(),
{
    if n.len() > 0 {
        lemma_balance_name(n.drop_last());
    }
}

proof fn lemma_balance_quoted(n: Seq<char>)
    requires
        is_name(n),
    ensures
        paren_balance(quoted(n)) == 0,
{
    lemma_balance_name(n);
    lemma_balance_name(seq!['"']);
    lemma_balance_concat(n, seq!['"']);
    lemma_balance_concat(seq!['"'], n + seq!['"']);
}

proof fn lemma_balance_terms(ts: Seq<TermModel>)
    requires
        terms_wf(ts),
    ensures
        paren_balance(terms_text(ts)) == 0,
    decreases ts.len(),
{
    if ts.len() > 0 {
        let TermModel::Var(n) = ts[0];
        lemma_balance_quoted(n);
        lemma_balance_name(seq!['V', 'a', 'r', ' ']);
        lemma_balance_concat(seq!['V', 'a', 'r', ' '], quoted(n));
        assert(paren_balance(term_text(ts[0])) == 0);
        if ts.len() > 1 {
            assert(terms_wf(ts.drop_first())) by {
                assert forall|i: int| 0 <= i < ts.len() - 1 implies (match #[trigger] ts.drop_first()[i] {
                    TermModel::Var(n) => is_name(n),
                }) by {
                    assert(ts.drop_first()[i] == ts[i + 1]);
                }
            }
            lemma_balance_terms(ts.drop_first());
            lemma_balance_name(seq![',', ' ']);
            lemma_balance_concat(seq![',', ' '], terms_text(ts.drop_first()));
            lemma_balance_concat(term_text(ts[0]), seq![',', ' '] + terms_text(ts.drop_first()));
        }
    }
}

proof fn lemma_balance_close()
    ensures
        paren_balance(seq![')']) == -1,
{
    assert(seq![')'] =~= Seq::<char>::empty().push(')'));
    lemma_balance_push(Seq::<char>::empty(), ')');
}

/// A keyword followed by an opening parenthesis.
proof fn lemma_balance_open(k: Seq<char>)
    requires
        forall|i: int| 0 <= i < k.len() ==> k[i] != '(' && k[i] != ')',
    ensures
        paren_balance(k.push('(')) == 1,
{
    lemma_balance_name(k);
    lemma_balance_push(k, '(');
}

proof fn lemma_balance_binary(k: Seq<char>, ta: Seq<char>, tb: Seq<char>)
    requires
        paren_balance(k) == 1,
        paren_balance(ta) == 0,
        paren_balance(tb) == 0,
    ensures
        paren_balance(k + binary_tail(ta, tb)) == 0,
{
    let m = seq![')', ' ', '('];
    lemma_balance_close();
    assert(paren_balance(m) == 0) by {
        assert(m =~= seq![')'].push(' ').push('('));
        lemma_balance_push(seq![')'], ' ');
        lemma_balance_push(seq![')'].push(' '), '(');
    }
    lemma_balance_concat(tb, seq![')']);
    lemma_balance_concat(m, tb + seq![')']);
    lemma_balance_concat(ta, m + (tb + seq![')']));
    lemma_balance_concat(k, binary_tail(ta, tb));
}

/// The text of a well-formed formula has as many opening as closing parentheses.
pub proof fn lemma_text_balanced(f: FormulaModel)
    requires
        wf(f),
    ensures
        paren_balance(text_of(f)) == 0,
    decreases f,
{
    match f {
        FormulaModel::True | FormulaModel::False => {
            lemma_balance_name(text_of(f));
        },
        FormulaModel::Relation(n, ts) => {
            lemma_balance_quoted(n);
            lemma_balance_terms(ts);
            lemma_balance_name(seq!['R', 'e', 'l', ' ']);
            lemma_balance_name(seq![' ', '[']);
            lemma_balance_name(seq![']']);
            lemma_balance_concat(terms_text(ts), seq![']']);
            lemma_balance_concat(seq![' ', '['], terms_text(ts) + seq![']']);
            lemma_balance_concat(quoted(n), seq![' ', '['] + (terms_text(ts) + seq![']']));
            lemma_balance_concat(
                seq!['R', 'e', 'l', ' '],
                quoted(n) + (seq![' ', '['] + (terms_text(ts) + seq![']'])),
            );
        },
        FormulaModel::And(a, b) => {
            lemma_text_balanced(*a);
            lemma_text_balanced(*b);
            lemma_balance_open(seq!['A', 'n', 'd', ' ']);
            assert(seq!['A', 'n', 'd', ' '].push('(') =~= seq!['A', 'n', 'd', ' ', '(']);
            lemma_balance_binary(seq!['A', 'n', 'd', ' ', '('], text_of(*a), text_of(*b));
        },
        FormulaModel::Or(a, b) => {
            lemma_text_balanced(*a);
            lemma_text_balanced(*b);
            lemma_balance_open(seq!['O', 'r', ' ']);
            assert(seq!['O', 'r', ' '].push('(') =~= seq!['O', 'r', ' ', '(']);
            lemma_balance_binary(seq!['O', 'r', ' ', '('], text_of(*a), text_of(*b));
        },
        FormulaModel::Implies(a, b) => {
            lemma_text_balanced(*a);
            lemma_text_balanced(*b);
            lemma_balance_open(seq!['I', 'm', 'p', 'l', 'i', 'e', 's', ' ']);
            assert(seq!['I', 'm', 'p', 'l', 'i', 'e', 's', ' '].push('(') =~= seq!['I', 'm', 'p', 'l', 'i', 'e', 's', ' ', '(']);
            lemma_balance_binary(
                seq!['I', 'm', 'p', 'l', 'i', 'e', 's', ' ', '('],
                text_of(*a),
                text_of(*b),
            );
        },
        FormulaModel::Not(_) => {},
        FormulaModel::Exists(v, b) | FormulaModel::Forall(v, b) => {
            lemma_text_balanced(*b);
            lemma_balance_quoted(v);
            let k = text_of(f).subrange(0, 7);
            let tb = text_of(*b);
            assert(text_of(f) =~= k + (quoted(v) + (seq![' ', '('] + (tb + seq![')']))));
            lemma_balance_name(k);
            lemma_balance_close();
            lemma_balance_open(seq![' ']);
            assert(seq![' '].push('(') =~= seq![' ', '(']);
            lemma_balance_concat(tb, seq![')']);
            lemma_balance_concat(seq![' ', '('], tb + seq![')']);
            lemma_balance_concat(quoted(v), seq![' ', '('] + (tb + seq![')']));
            lemma_balance_concat(k, quoted(v) + (seq![' ', '('] + (tb + seq![')'])));
        },
    }
}

/// An input whose parentheses do not balance is rejected as having no derivation.
pub proof fn law_unbalanced_rejected(input: Seq<char>, r: Result<Formula, ParseError>)
    requires
        parse_outcome(input, r),
        paren_balance(input) != 0,
    ensures
        r is Err && r->Err_0 is InputParse,
{
    if is_formula_text(input) {
        let m = choose|m: FormulaModel| wf(m) && #[trigger] text_of(m) == input;
        lemma_text_balanced(m);
    }
    if r is Ok {
        lemma_text_balanced(r->Ok_0@);
    }
}

/// A character that can open a formula: the first letter of a constant, of a
/// relation, or of a connective's or quantifier's keyword.
pub open spec fn opens_formula(c: char) -> bool {
    c == 'T' || c == 'F' || c == 'R' || c == 'A' || c == 'O' || c == 'I' || c == 'E'
}

/// An empty input, or one whose first character opens no formula (an unknown
/// keyword, say), is rejected as having no derivation.
pub proof fn law_unknown_start_rejected(input: Seq<char>, r: Result<Formula, ParseError>)
    requires
        parse_outcome(input, r),
        input.len() == 0 || !opens_formula(input[0]),
    ensures
        r is Err && r->Err_0 is InputParse,
{
    if is_formula_text(input) {
        let m = choose|m: FormulaModel| wf(m) && #[trigger] text_of(m) == input;
        assert(text_of(m).len() > 0 && opens_formula(text_of(m)[0]));
    }
    if r is Ok {
        let f = r->Ok_0@;
        assert(text_of(f).len() > 0 && opens_formula(text_of(f)[0]));
    }
}

} // verus!

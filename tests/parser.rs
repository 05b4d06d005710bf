use fol_parser::engine::Parser;
use fol_parser::error::ParseError;
use fol_parser::formula::{Formula, Term};
use fol_parser::tree::{build_formula, ParseTree};

fn var(n: &str) -> Term {
    Term::Var(n.to_string())
}

fn rel(n: &str, args: Vec<Term>) -> Formula {
    Formula::Relation(n.to_string(), args)
}

fn and(a: Formula, b: Formula) -> Formula {
    Formula::And(Box::new(a), Box::new(b))
}

fn some_var(v: &str, b: Formula) -> Formula {
    Formula::Exists(v.to_string(), Box::new(b))
}

fn every_var(v: &str, b: Formula) -> Formula {
    Formula::Forall(v.to_string(), Box::new(b))
}

const DRINKER: &str = r#"Exists "x" (Implies (Rel "D" [Var "x"]) (Forall "y" (Rel "D" [Var "y"])))"#;

#[test]
fn grammar_is_parsable() {
    let _parser = Parser::new().unwrap();
}

#[test]
fn experiments() {
    let grammar: bnf::Grammar = "
<input> ::= <string> | <string> '\n'

<string> ::= '\"' <alphanumeric_seq> '\"'

<alphanumeric_seq> ::= <alphanumeric> | <alphanumeric> <alphanumeric_seq>

<alphanumeric> ::= 'A' | 'B' | 'C' | 'D' | 'E' | 'F' | 'G' | 'H' | 'I' | 'J' | 'K' | 'L' | 'M' |
                   'N' | 'O' | 'P' | 'Q' | 'R' | 'S' | 'T' | 'U' | 'V' | 'W' | 'X' | 'Y' | 'Z' |
                   'a' | 'b' | 'c' | 'd' | 'e' | 'f' | 'g' | 'h' | 'i' | 'j' | 'k' | 'l' | 'm' |
                   'n' | 'o' | 'p' | 'q' | 'r' | 's' | 't' | 'u' | 'v' | 'w' | 'x' | 'y' | 'z' |
                   '0' | '1' | '2' | '3' | '4' | '5' | '6' | '7' | '8' | '9'
"
    .parse()
    .expect("Unparsable grammar");

    let input = "\"Ala\"\n";

    let parser = grammar.build_parser().unwrap();
    parser
        .parse_input(input)
        .next()
        .unwrap_or_else(|| panic!("Could not parse input: {}", input));
}

#[test]
fn good_inputs_are_parsed() {
    let parser = Parser::new().unwrap();
    let formulas = [
        "T",
        "And (T) (T)",
        r#"Exists "x" (T)"#,
        r#"Rel "D" [Var "x"]"#,
        r#"Forall "y" (F)"#,
        r#"Forall "y" (Rel "D" [Var "y"])"#,
        DRINKER,
    ];
    for formula in formulas {
        parser.with_parse_tree(formula, |_| ()).unwrap();
    }
}

#[test]
fn good_inputs_have_their_shapes() {
    let p = Parser::new().unwrap();
    assert_eq!(p.parse("T").unwrap(), Formula::True);
    assert_eq!(p.parse("F").unwrap(), Formula::False);
    assert_eq!(p.parse("And (T) (T)").unwrap(), and(Formula::True, Formula::True));
    assert_eq!(p.parse(r#"Exists "x" (T)"#).unwrap(), some_var("x", Formula::True));
    assert_eq!(p.parse(r#"Rel "D" [Var "x"]"#).unwrap(), rel("D", vec![var("x")]));
    assert_eq!(p.parse(r#"Forall "y" (F)"#).unwrap(), every_var("y", Formula::False));
    assert_eq!(
        p.parse(r#"Forall "y" (Rel "D" [Var "y"])"#).unwrap(),
        every_var("y", rel("D", vec![var("y")]))
    );
    assert_eq!(
        p.parse(DRINKER).unwrap(),
        some_var(
            "x",
            Formula::Implies(
                Box::new(rel("D", vec![var("x")])),
                Box::new(every_var("y", rel("D", vec![var("y")])))
            )
        )
    );
}

#[test]
fn other_connectives_are_parsed() {
    let p = Parser::new().unwrap();
    assert_eq!(
        p.parse("Or (F) (T)").unwrap(),
        Formula::Or(Box::new(Formula::False), Box::new(Formula::True))
    );
    assert_eq!(
        p.parse(r#"Rel "Edge2" [Var "a1", Var "B", Var "c"]"#).unwrap(),
        rel("Edge2", vec![var("a1"), var("B"), var("c")])
    );
}

#[test]
fn relation_arity_is_kept() {
    let p = Parser::new().unwrap();
    match p.parse(r#"Rel "D" [Var "x"]"#).unwrap() {
        Formula::Relation(name, args) => {
            assert_eq!(name, "D");
            assert_eq!(args.len(), 1);
            assert_eq!(args[0], var("x"));
        }
        other => panic!("not a relation: {:?}", other),
    }
    match p.parse(r#"Rel "P" []"#).unwrap() {
        Formula::Relation(name, args) => {
            assert_eq!(name, "P");
            assert_eq!(args.len(), 0);
        }
        other => panic!("not a relation: {:?}", other),
    }
}

#[test]
fn bad_inputs_are_rejected() {
    let p = Parser::new().unwrap();
    let bad = [
        "And (T) (T",
        "And (T)) (T)",
        "Not (T)",
        "Or ((T) (F)",
        "Nand (T) (T)",
        "Xor (T) (F)",
        "Iff (T) (T)",
        "(T",
        "Exists \"x\" T)",
        "And (T (T)",
        "Rel D [Var \"x\"]",
        "Rel \"D\" [Var x]",
        "Exists x (T)",
        "",
        "TT",
        "Rel \"\" []",
    ];
    for input in bad {
        assert_eq!(p.parse(input), Err(ParseError::InputParse(input.to_string())), "{}", input);
    }
}

#[test]
fn parsing_is_deterministic() {
    let p = Parser::new().unwrap();
    for input in ["T", DRINKER, r#"Rel "P" []"#] {
        assert_eq!(p.parse(input).unwrap(), p.parse(input).unwrap());
    }
}

#[test]
fn conjunction_composes() {
    let p = Parser::new().unwrap();
    let a = r#"Forall "y" (Rel "D" [Var "y"])"#;
    let b = DRINKER;
    let c = format!("And ({}) ({})", a, b);
    assert_eq!(p.parse(&c).unwrap(), and(p.parse(a).unwrap(), p.parse(b).unwrap()));
}

#[test]
fn parse_error_keeps_input() {
    let p = Parser::new().unwrap();
    let r = p.with_parse_tree("Maybe (T)", |_| 1);
    assert_eq!(r, Err(ParseError::InputParse("Maybe (T)".to_string())));
}

#[test]
fn parse_tree_has_labels() {
    let p = Parser::new().unwrap();
    let label = p
        .with_parse_tree("Or (T) (F)", |t| match t {
            ParseTree::Node(l, cs) => match &cs[0] {
                ParseTree::Node(k, _) => format!("{}/{}", l, k),
                ParseTree::Leaf(s) => s.clone(),
            },
            ParseTree::Leaf(s) => s.clone(),
        })
        .unwrap();
    assert_eq!(label, "<formula>/<or>");
}

fn node(l: &str, cs: Vec<ParseTree>) -> ParseTree {
    ParseTree::Node(l.to_string(), cs)
}

fn leaf(s: &str) -> ParseTree {
    ParseTree::Leaf(s.to_string())
}

#[test]
fn tree_converts_to_formula() {
    let t = node("<formula>", vec![node("<true>", vec![leaf("T")])]);
    assert_eq!(build_formula(&t), Ok(Formula::True));
}

#[test]
fn misshapen_tree_is_a_conversion_error() {
    let t = node("<formula>", vec![node("<true>", vec![leaf("F")])]);
    assert_eq!(build_formula(&t), Err(ParseError::StructuralConversion("<true>".to_string())));
    let t = node("<term>", vec![]);
    assert_eq!(build_formula(&t), Err(ParseError::StructuralConversion("<term>".to_string())));
}

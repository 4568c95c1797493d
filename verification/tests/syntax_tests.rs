use wam::syntax::parse_atom;
use wam::syntax::parse_compound;
use wam::syntax::parse_expression;
use wam::syntax::parse_number;
use wam::Atom;
use wam::Compound;
use wam::Term;

#[test]
fn test_atom_parser() {
    // atoms
    assert!(parse_atom("22").is_err());
    assert!(parse_atom("_Abc").is_err());
    assert!(parse_atom("Abc").is_err());
    assert!(parse_atom("abc").is_ok());
    assert!(parse_atom("'Abc'").is_ok());
    assert!(parse_atom("'Abc").is_err());
    assert!(parse_atom(".q").is_err());
    assert!(parse_atom("snake_case").is_ok());
    assert!(parse_atom("'snake_case'").is_ok());
    assert!(parse_atom("This_Fails").is_err());
    assert!(parse_atom("'This_Succeeds'").is_ok());
}

#[test]
fn test_number_parser() {
    // numbers
    assert!(parse_number("2").is_ok());
    assert!(parse_number("42").is_ok());
    assert!(parse_number("34345354").is_ok());
    assert!(parse_number("a03").is_err());
    assert!(parse_number("_21").is_err());
    assert!(parse_number("2_12").is_err());
    assert!(parse_number(".3").is_err());
    assert!(parse_number("2.").is_err());
}

#[test]
fn test_compound_parser() {
    // compounds
    assert!(parse_compound("p(Z, h(Z, W), f(W))").is_ok());
    assert!(parse_compound("p (Z, h(Z, W), f(W))").is_err());
    assert!(parse_compound("p(Z, h(Z, W), f(W)").is_err());
    assert!(parse_compound("p(Z, h(Z,, f(W)").is_err());
    assert!(parse_compound("p(Z, f(h(Z, W)), f(W))").is_ok());
}

#[test]
fn test_simple_expressions() {
    // expressions
    assert!(parse_expression("A.").is_ok());
    assert!(parse_expression("2.").is_err());
    assert!(parse_expression("foo(bar).").is_ok());
    assert!(parse_expression("foo.").is_ok());
}

#[test]
fn test_empty_inputs() {
    assert!(parse_expression("").is_err());
    assert!(parse_atom("").is_err());
    assert!(parse_number("").is_err());
    assert!(parse_compound("").is_err());
    assert!(parse_atom("''").is_err());
}

#[test]
fn test_compound_structure_rendering() {
    let t = Term::Compound(Compound {
        name: String::from("foo"),
        arity: 2,
        args: vec![
            Term::Atom(Atom("bar".to_string())),
            Term::Atom(Atom("baz".to_string())),
        ],
    });

    assert_eq!(t.to_text(), "foo(bar, baz)");
}

#[test]
fn test_atomic_structure_rendering() {
    let t = Term::Compound(Compound { name: String::from("bar"), arity: 0, args: Vec::new() });

    assert_eq!(t.to_text(), "bar");
}

#[test]
fn test_quoted_atom_value() {
    let a = parse_atom("'Abc'").unwrap();
    assert_eq!(a.0, "Abc");
    let b = parse_atom("abc").unwrap();
    assert_eq!(b.0, "abc");
}

#[test]
fn test_number_value() {
    assert_eq!(parse_number("42").unwrap(), 42);
    assert_eq!(parse_number("0").unwrap(), 0);
    assert_eq!(parse_number("34345354").unwrap(), 34345354);
    // a value past the representable range is rejected rather than wrapped
    assert!(parse_number("99999999999999999999999999").is_err());
}

#[test]
fn test_parsed_compound_shape() {
    let c = parse_compound("p(Z, h(Z, W), f(W))").unwrap();
    assert_eq!(c.name, "p");
    assert_eq!(c.arity, 3);
    assert_eq!(c.args.len(), 3);
    let t = Term::Compound(c);
    assert_eq!(t.to_text(), "p(Z, h(Z, W), f(W))");
}

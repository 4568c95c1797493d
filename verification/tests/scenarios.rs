use wam::compile_fact;
use wam::compile_rule;
use wam::query;
use wam::resolve_term;
use wam::run_query;
use wam::Atom;
use wam::Cell;
use wam::Compound;
use wam::Functor;
use wam::Machine;
use wam::MachineError;
use wam::Register;
use wam::Register::X;
use wam::Store;
use wam::Term;
use wam::Var;

fn f(name: &str, arity: usize) -> Functor {
    Functor(String::from(name), arity)
}

fn var(name: &str) -> Term {
    Term::Var(Var(name.to_string()))
}

fn atom(name: &str) -> Term {
    Term::Atom(Atom(name.to_string()))
}

fn comp(name: &str, args: Vec<Term>) -> Compound {
    Compound { name: name.to_string(), arity: args.len(), args }
}

// Running a query with no program sets up the argument registers and
// the heap exactly as the book figures give them.
#[test]
fn query_alone_builds_expected_heap() {
    let mut m = Machine::new();
    query(&mut m, "p(Z, h(Z, W), f(W)).").unwrap();

    let expected_heap_cells = vec![
        Cell::Ref(0),
        Cell::Str(2),
        Cell::Func(f("h", 2)),
        Cell::Ref(0),
        Cell::Ref(4),
        Cell::Str(6),
        Cell::Func(f("f", 1)),
        Cell::Ref(4),
    ];
    assert_eq!(m.get_heap(), &expected_heap_cells);
    assert_eq!(m.get_heap().len(), 8);
    assert_eq!(m.get_x(1).cloned().unwrap(), Cell::Ref(0));
    assert_eq!(m.get_x(2).cloned().unwrap(), Cell::Str(2));
    assert_eq!(m.get_x(3).cloned().unwrap(), Cell::Str(6));
}

// A query against a matching fact succeeds and binds every variable
// to a ground term.
#[test]
fn fact_matching_query_succeeds() {
    let mut m = Machine::new();
    let (qb, pb) = run_query(&mut m, "p(f(X), h(Y, f(a)), Y).", "p(Z, h(Z, W), f(W)).").unwrap();

    assert!(m.is_true());
    assert_eq!(qb, vec!["X = f(a)".to_string(), "Y = f(f(a))".to_string()]);
    assert_eq!(pb, vec!["W = f(a)".to_string(), "Z = f(f(a))".to_string()]);
}

// The same session driven by terms instead of text: the pinned
// term-level pipeline yields the same bindings.
#[test]
fn fact_matching_terms_succeed() {
    let mut m = Machine::new();
    let qt = Term::Compound(comp(
        "p",
        vec![
            Term::Compound(comp("f", vec![var("X")])),
            Term::Compound(comp("h", vec![var("Y"), Term::Compound(comp("f", vec![atom("a")]))])),
            var("Y"),
        ],
    ));
    let pt = Term::Compound(comp(
        "p",
        vec![
            var("Z"),
            Term::Compound(comp("h", vec![var("Z"), var("W")])),
            Term::Compound(comp("f", vec![var("W")])),
        ],
    ));
    let (qb, pb) = wam::run_query_terms(&mut m, &qt, &pt).unwrap();
    assert!(m.is_true());
    assert_eq!(qb, vec!["X = f(a)".to_string(), "Y = f(f(a))".to_string()]);
    assert_eq!(pb, vec!["W = f(a)".to_string(), "Z = f(f(a))".to_string()]);
}

// Distinct constants do not unify: the fail flag is set.
#[test]
fn mismatched_atoms_fail() {
    let mut m = Machine::new();
    let _ = run_query(&mut m, "p(a).", "p(b).").unwrap();
    assert!(m.is_false());
}

// A rule chains two facts: p(X, Y) :- q(X, Z), r(Z, Y) resolves
// p(U, V) to U = a, V = c.
#[test]
fn rule_resolution_binds_through_chain() {
    let rule = wam::Rule {
        head: comp("p", vec![var("X"), var("Y")]),
        body: vec![
            comp("q", vec![var("X"), var("Z")]),
            comp("r", vec![var("Z"), var("Y")]),
        ],
    };
    let fact1 = Term::Compound(comp("q", vec![atom("a"), atom("b")]));
    let fact2 = Term::Compound(comp("r", vec![atom("b"), atom("c")]));

    let mut map: Vec<(Term, Register)> = Vec::new();
    let mut seen: Vec<Term> = Vec::new();
    let rule_instructions = compile_rule(&rule, &mut map, &mut seen).unwrap();
    assert_eq!(rule_instructions[0], wam::Instruction::Allocate(2));

    let mut m1: Vec<(Term, Register)> = Vec::new();
    let mut s1: Vec<Term> = Vec::new();
    let fact1_instructions = compile_fact(&fact1, &mut m1, &mut s1).unwrap();
    let mut m2: Vec<(Term, Register)> = Vec::new();
    let mut s2: Vec<Term> = Vec::new();
    let fact2_instructions = compile_fact(&fact2, &mut m2, &mut s2).unwrap();

    let mut machine = Machine::new();
    machine.push_instructions(&f("p", 2), &rule_instructions);
    machine.push_instructions(&f("q", 2), &fact1_instructions);
    machine.push_instructions(&f("r", 2), &fact2_instructions);

    let bindings = query(&mut machine, "p(U, V).").unwrap();
    assert!(machine.is_true());

    let mut u = String::new();
    let mut v = String::new();
    for (cell, term) in &bindings {
        if let Term::Var(Var(name)) = term {
            let addr = match cell {
                Cell::Ref(a) => *a,
                Cell::Str(a) => *a,
                Cell::Func(_) => continue,
            };
            let mut buffer = String::new();
            resolve_term(&machine, addr, &bindings, &mut buffer).unwrap();
            if name == "U" {
                u = buffer;
            } else if name == "V" {
                v = buffer;
            }
        }
    }
    assert_eq!(u, "a");
    assert_eq!(v, "c");
}

// The permanent variables of p(X, Y) :- q(X, Z), r(Z, Y) are exactly
// Y and Z, in textual order of first occurrence.
#[test]
fn permanent_variables_of_chain_rule() {
    let rule = wam::Rule {
        head: comp("p", vec![var("X"), var("Y")]),
        body: vec![
            comp("q", vec![var("X"), var("Z")]),
            comp("r", vec![var("Z"), var("Y")]),
        ],
    };
    let y_map = wam::collect_permanent_variables(&rule).unwrap();
    assert_eq!(y_map.len(), 2);
    assert!(matches!(&y_map[0].0, Term::Var(Var(n)) if n == "Y"));
    assert_eq!(y_map[0].1, Register::Y(1));
    assert!(matches!(&y_map[1].0, Term::Var(Var(n)) if n == "Z"));
    assert_eq!(y_map[1].1, Register::Y(2));
}

// Binding two fresh variables is symmetric: either argument order
// makes the younger cell point at the older one.
#[test]
fn bind_order_is_symmetric() {
    let mut m1 = Machine::new();
    m1.set_variable(X(1)).unwrap();
    m1.set_variable(X(2)).unwrap();
    m1.bind(Store::HeapAddr(0), Store::HeapAddr(1)).unwrap();

    let mut m2 = Machine::new();
    m2.set_variable(X(1)).unwrap();
    m2.set_variable(X(2)).unwrap();
    m2.bind(Store::HeapAddr(1), Store::HeapAddr(0)).unwrap();

    assert_eq!(m1.get_heap(), m2.get_heap());
    assert_eq!(m1.get_heap()[1], Cell::Ref(0));
}

// Unification is order-free: both argument orders leave the same
// heap and the same fail flag.
#[test]
fn unify_order_is_symmetric() {
    let mut m1 = Machine::new();
    m1.put_structure(f("a", 0), X(5)).unwrap();
    m1.put_structure(f("g", 2), X(4)).unwrap();
    m1.set_value(X(5)).unwrap();
    m1.set_variable(X(6)).unwrap();
    m1.put_structure(f("g", 2), X(1)).unwrap();
    m1.set_variable(X(2)).unwrap();
    m1.set_variable(X(3)).unwrap();

    let mut m2 = Machine::new();
    m2.put_structure(f("a", 0), X(5)).unwrap();
    m2.put_structure(f("g", 2), X(4)).unwrap();
    m2.set_value(X(5)).unwrap();
    m2.set_variable(X(6)).unwrap();
    m2.put_structure(f("g", 2), X(1)).unwrap();
    m2.set_variable(X(2)).unwrap();
    m2.set_variable(X(3)).unwrap();

    m1.unify(Store::Register(X(1)), Store::Register(X(4))).unwrap();
    m2.unify(Store::Register(X(4)), Store::Register(X(1))).unwrap();

    assert_eq!(m1.is_true(), m2.is_true());
    assert!(m1.is_true());
    assert_eq!(m1.get_heap(), m2.get_heap());
}

// Unifying an address with itself trivially succeeds and leaves the
// heap unchanged.
#[test]
fn unify_same_address_succeeds() {
    let mut m = Machine::new();
    m.set_variable(X(1)).unwrap();
    let before = m.get_heap().clone();
    m.unify(Store::HeapAddr(0), Store::HeapAddr(0)).unwrap();
    assert!(m.is_true());
    assert_eq!(m.get_heap(), &before);
}

// Unifying two distinct structures with different functors raises the
// fail flag.
#[test]
fn unify_functor_clash_fails() {
    let mut m = Machine::new();
    m.put_structure(f("g", 1), X(1)).unwrap();
    m.set_variable(X(2)).unwrap();
    m.put_structure(f("h", 1), X(3)).unwrap();
    m.set_variable(X(4)).unwrap();
    m.unify(Store::Register(X(1)), Store::Register(X(3))).unwrap();
    assert!(m.is_false());
}

// Each structural error kind is reported on the input that causes it.
#[test]
fn structural_error_kinds() {
    let mut m = Machine::new();
    // a register read before any write
    assert_eq!(m.set_value(X(1)), Err(MachineError::RegisterUnderflow));
    // a call to a functor with no entry address
    assert_eq!(m.execute_instructions(&f("nope", 0)), Err(MachineError::UnknownFunctor));
    // a deallocate with no environment frame
    assert_eq!(m.deallocate(), Err(MachineError::InvalidCell));
    // a query that is a bare variable
    let mut map: Vec<(Term, Register)> = Vec::new();
    let mut seen: Vec<Term> = Vec::new();
    assert!(matches!(
        wam::compile_query(&var("Q"), &mut map, &mut seen),
        Err(MachineError::MalformedAst)
    ));
    // a rule with an empty body
    let bad = wam::Rule { head: comp("p", vec![var("X")]), body: Vec::new() };
    assert!(matches!(
        wam::collect_permanent_variables(&bad),
        Err(MachineError::MalformedAst)
    ));
    // unparsable text
    assert!(matches!(query(&mut m, "p(Z"), Err(MachineError::ParseError)));
}

// An allocated frame stores and returns permanent variables, and
// deallocate restores the previous environment.
#[test]
fn allocate_stores_permanent_variables() {
    let mut m = Machine::new();
    m.allocate(2).unwrap();
    m.set_variable(wam::Register::Y(1)).unwrap();
    m.set_variable(wam::Register::Y(2)).unwrap();
    assert_eq!(m.get_y(1).cloned().unwrap(), Cell::Ref(0));
    assert_eq!(m.get_y(2).cloned().unwrap(), Cell::Ref(1));
    assert_eq!(m.get_y(3), None);
    m.deallocate().unwrap();
    assert_eq!(m.get_e(), 0);
}

// Compiling then reading the term back off the heap is the identity
// on a ground term.
#[test]
fn ground_term_round_trips_through_heap() {
    let mut m = Machine::new();
    let bindings = query(&mut m, "p(f(g(a), b)).").unwrap();
    // X(1) holds the argument f(g(a), b)
    let cell = m.get_x(1).cloned().unwrap();
    let addr = match cell {
        Cell::Str(a) => a,
        Cell::Ref(a) => a,
        Cell::Func(_) => panic!("unexpected functor cell"),
    };
    let mut buffer = String::new();
    resolve_term(&m, addr, &bindings, &mut buffer).unwrap();
    assert_eq!(buffer, "f(g(a), b)");
}

use wam::compile_fact;
use wam::compile_query;
use wam::compile_rule;
use wam::query;
use wam::Atom;
use wam::Compound;
use wam::Functor;
use wam::Instruction;
use wam::Machine;
use wam::Register;
use wam::Register::X;
use wam::Register::Y;
use wam::Rule;
use wam::Term;
use wam::Var;

fn f(name: &str, arity: usize) -> Functor {
    Functor(String::from(name), arity)
}

fn var(name: &str) -> Term {
    Term::Var(Var(name.to_string()))
}

fn atom(name: &str) -> Term {
    Term::Atom(Atom(name.to_string()))
}

fn comp(name: &str, args: Vec<Term>) -> Compound {
    Compound { name: name.to_string(), arity: args.len(), args }
}

#[test]
fn test_program_instruction_compilation_fig_2_3() {
    let expected_instructions = vec![
        Instruction::PutVariable(X(4), X(1)),
        Instruction::PutStructure(f("h", 2), X(2)),
        Instruction::SetValue(X(4)),
        Instruction::SetVariable(X(5)),
        Instruction::PutStructure(f("f", 1), X(3)),
        Instruction::SetValue(X(5)),
        Instruction::Call(f("p", 3)),
    ];

    let p = wam::syntax::parse_expression("p(Z, h(Z, W), f(W)).").unwrap();
    let mut map: Vec<(Term, Register)> = Vec::new();
    let mut seen: Vec<Term> = Vec::new();
    let instructions = compile_query(&p, &mut map, &mut seen).unwrap();

    assert_eq!(expected_instructions, instructions);
}

#[test]
fn test_program_instruction_compilation_fig_2_4() {
    let expected_instructions = vec![
        Instruction::GetStructure(f("f", 1), X(1)),
        Instruction::UnifyVariable(X(4)),
        Instruction::GetStructure(f("h", 2), X(2)),
        Instruction::UnifyVariable(X(5)),
        Instruction::UnifyVariable(X(6)),
        Instruction::GetValue(X(5), X(3)),
        Instruction::GetStructure(f("f", 1), X(6)),
        Instruction::UnifyVariable(X(7)),
        Instruction::GetStructure(f("a", 0), X(7)),
        Instruction::Proceed,
    ];

    let p = wam::syntax::parse_expression("p(f(X), h(Y, f(a)), Y).").unwrap();
    let mut seen: Vec<Term> = Vec::new();
    let mut map: Vec<(Term, Register)> = Vec::new();
    let instructions = compile_fact(&p, &mut map, &mut seen).unwrap();

    assert_eq!(expected_instructions, instructions);
}

#[test]
fn test_instruction_compilation_exercise_2_4() {
    let expected_query_instructions = vec![
        Instruction::PutStructure(f("f", 1), X(1)),
        Instruction::SetVariable(X(4)),
        Instruction::PutStructure(f("a", 0), X(7)),
        Instruction::PutStructure(f("f", 1), X(6)),
        Instruction::SetValue(X(7)),
        Instruction::PutStructure(f("h", 2), X(2)),
        Instruction::SetVariable(X(5)),
        Instruction::SetValue(X(6)),
        Instruction::PutValue(X(5), X(3)),
        Instruction::Call(f("p", 3)),
    ];

    let expected_program_instructions = vec![
        Instruction::GetVariable(X(4), X(1)),
        Instruction::GetStructure(f("h", 2), X(2)),
        Instruction::UnifyValue(X(4)),
        Instruction::UnifyVariable(X(5)),
        Instruction::GetStructure(f("f", 1), X(3)),
        Instruction::UnifyValue(X(5)),
        Instruction::Proceed,
    ];

    let q = wam::syntax::parse_expression("p(f(X), h(Y, f(a)), Y).").unwrap();
    let p = wam::syntax::parse_expression("p(Z, h(Z, W), f(W)).").unwrap();
    let mut query_seen: Vec<Term> = Vec::new();
    let mut query_map: Vec<(Term, Register)> = Vec::new();
    let mut program_seen: Vec<Term> = Vec::new();
    let mut program_map: Vec<(Term, Register)> = Vec::new();

    let query_instructions = compile_query(&q, &mut query_map, &mut query_seen).unwrap();
    let program_instructions = compile_fact(&p, &mut program_map, &mut program_seen).unwrap();

    assert_eq!(expected_query_instructions, query_instructions);
    assert_eq!(expected_program_instructions, program_instructions);
}

#[test]
fn test_instruction_compilation_exercise_2_8() {
    let q = comp(
        "p",
        vec![
            Term::Compound(comp("f", vec![var("X")])),
            Term::Compound(comp("h", vec![var("Y"), Term::Compound(comp("f", vec![atom("a")]))])),
            var("Y"),
        ],
    );

    let p = comp(
        "p",
        vec![
            var("Z"),
            Term::Compound(comp("h", vec![var("Z"), var("W")])),
            Term::Compound(comp("f", vec![var("W")])),
        ],
    );

    let expected_query_instructions = vec![
        Instruction::PutStructure(f("f", 1), X(1)),
        Instruction::SetVariable(X(4)),
        Instruction::PutStructure(f("a", 0), X(7)),
        Instruction::PutStructure(f("f", 1), X(6)),
        Instruction::SetValue(X(7)),
        Instruction::PutStructure(f("h", 2), X(2)),
        Instruction::SetVariable(X(5)),
        Instruction::SetValue(X(6)),
        Instruction::PutValue(X(5), X(3)),
        Instruction::Call(f("p", 3)),
    ];

    let expected_program_instructions = vec![
        Instruction::GetVariable(X(4), X(1)),
        Instruction::GetStructure(f("h", 2), X(2)),
        Instruction::UnifyValue(X(4)),
        Instruction::UnifyVariable(X(5)),
        Instruction::GetStructure(f("f", 1), X(3)),
        Instruction::UnifyValue(X(5)),
        Instruction::Proceed,
    ];

    let mut query_seen: Vec<Term> = Vec::new();
    let mut query_map: Vec<(Term, Register)> = Vec::new();
    let mut program_seen: Vec<Term> = Vec::new();
    let mut program_map: Vec<(Term, Register)> = Vec::new();

    let query_instructions = compile_query(&q, &mut query_map, &mut query_seen).unwrap();
    let program_instructions = compile_fact(&p, &mut program_map, &mut program_seen).unwrap();

    assert_eq!(&expected_query_instructions, &query_instructions);
    assert_eq!(&expected_program_instructions, &program_instructions);
}

#[test]
fn test_instruction_compilation_figure_2_9() {
    let q = comp(
        "p",
        vec![
            var("Z"),
            Term::Compound(comp("h", vec![var("Z"), var("W")])),
            Term::Compound(comp("f", vec![var("W")])),
        ],
    );

    let expected_query_instructions = vec![
        Instruction::PutVariable(X(4), X(1)),
        Instruction::PutStructure(f("h", 2), X(2)),
        Instruction::SetValue(X(4)),
        Instruction::SetVariable(X(5)),
        Instruction::PutStructure(f("f", 1), X(3)),
        Instruction::SetValue(X(5)),
        Instruction::Call(f("p", 3)),
    ];

    let mut seen: Vec<Term> = Vec::new();
    let mut map: Vec<(Term, Register)> = Vec::new();
    let query_instructions = compile_query(&q, &mut map, &mut seen).unwrap();

    assert_eq!(&expected_query_instructions, &query_instructions);
}

#[test]
fn test_instruction_compilation_figure_2_10() {
    let q = comp(
        "p",
        vec![
            Term::Compound(comp("f", vec![var("X")])),
            Term::Compound(comp("h", vec![var("Y"), Term::Compound(comp("f", vec![atom("a")]))])),
            var("Y"),
        ],
    );

    let expected_program_instructions = vec![
        Instruction::GetStructure(f("f", 1), X(1)),
        Instruction::UnifyVariable(X(4)),
        Instruction::GetStructure(f("h", 2), X(2)),
        Instruction::UnifyVariable(X(5)),
        Instruction::UnifyVariable(X(6)),
        Instruction::GetValue(X(5), X(3)),
        Instruction::GetStructure(f("f", 1), X(6)),
        Instruction::UnifyVariable(X(7)),
        Instruction::GetStructure(f("a", 0), X(7)),
        Instruction::Proceed,
    ];

    let mut seen: Vec<Term> = Vec::new();
    let mut map: Vec<(Term, Register)> = Vec::new();
    let program_instructions = compile_fact(&q, &mut map, &mut seen).unwrap();

    assert_eq!(&expected_program_instructions, &program_instructions);
}

#[test]
fn test_instruction_compilation_exercise_2_1() {
    let expected_instructions = vec![
        Instruction::PutVariable(X(4), X(1)),
        Instruction::PutStructure(f("h", 2), X(2)),
        Instruction::SetValue(X(4)),
        Instruction::SetVariable(X(5)),
        Instruction::PutStructure(f("f", 1), X(3)),
        Instruction::SetValue(X(5)),
        Instruction::Call(f("p", 3)),
    ];

    let q = wam::syntax::parse_expression("p(Z, h(Z, W), f(W)).").unwrap();
    let mut seen: Vec<Term> = Vec::new();
    let mut map: Vec<(Term, Register)> = Vec::new();
    let instructions = compile_query(&q, &mut map, &mut seen).unwrap();

    assert_eq!(expected_instructions, instructions);
}

#[test]
fn test_fact_instruction_compilation_exercise_3_1() {
    let fact1 = Term::Compound(comp("q", vec![atom("a"), atom("b")]));
    let fact2 = Term::Compound(comp("r", vec![atom("b"), atom("c")]));

    let r = Rule {
        head: comp("p", vec![var("X"), var("Y")]),
        body: vec![
            comp("q", vec![var("X"), var("Z")]),
            comp("r", vec![var("Z"), var("Y")]),
        ],
    };

    let expected_fact1_instructions = vec![
        Instruction::GetStructure(f("a", 0), X(1)),
        Instruction::GetStructure(f("b", 0), X(2)),
        Instruction::Proceed,
    ];

    let expected_fact2_instructions = vec![
        Instruction::GetStructure(f("b", 0), X(1)),
        Instruction::GetStructure(f("c", 0), X(2)),
        Instruction::Proceed,
    ];

    let expected_rule_instructions = vec![
        Instruction::Allocate(2),
        Instruction::GetVariable(X(3), X(1)),
        Instruction::GetVariable(Y(1), X(2)),
        Instruction::PutValue(X(3), X(1)),
        Instruction::PutVariable(Y(2), X(2)),
        Instruction::Call(f("q", 2)),
        Instruction::PutValue(Y(2), X(1)),
        Instruction::PutValue(Y(1), X(2)),
        Instruction::Call(f("r", 2)),
        Instruction::Deallocate,
    ];

    let mut m: Vec<(Term, Register)> = Vec::new();
    let mut seen: Vec<Term> = Vec::new();

    let rule_instructions = compile_rule(&r, &mut m, &mut seen).unwrap();
    let fact1_instructions = compile_fact(&fact1, &mut m, &mut seen).unwrap();
    let fact2_instructions = compile_fact(&fact2, &mut m, &mut seen).unwrap();
    let r_functor = f("p", 2);
    let f1_functor = f("q", 2);
    let f2_functor = f("r", 2);

    assert_eq!(&expected_fact1_instructions, &fact1_instructions);
    assert_eq!(&expected_fact2_instructions, &fact2_instructions);
    assert_eq!(&expected_rule_instructions, &rule_instructions);

    let mut machine = Machine::new();

    machine.push_instructions(&r_functor, &rule_instructions);
    machine.push_instructions(&f1_functor, &fact1_instructions);
    machine.push_instructions(&f2_functor, &fact2_instructions);
    let results = query(&mut machine, "p(U, V).");

    println!("{:?}", results);
}

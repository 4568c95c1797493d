use wam::Cell;
use wam::Functor;
use wam::Machine;
use wam::Register::X;
use wam::Store;

fn f(name: &str, arity: usize) -> Functor {
    Functor(String::from(name), arity)
}

fn register_is(machine: &Machine, register: wam::Register, cell: Cell) {
    assert_eq!(machine.get_register(register).cloned().unwrap(), cell);
}

#[test]
fn test_set_variable() {
    let mut m = Machine::new();

    m.set_variable(X(1)).unwrap();

    let expected_heap_cells = vec![Cell::Ref(0)];
    let heap_cells = m.get_heap();

    assert_eq!(heap_cells, &expected_heap_cells);
    register_is(&m, X(1), Cell::Ref(0));
}

#[test]
fn test_set_value() {
    let mut m = Machine::new();

    m.set_variable(X(1)).unwrap();
    m.set_variable(X(2)).unwrap();

    m.set_value(X(1)).unwrap();
    m.set_value(X(2)).unwrap();

    let expected_heap_cells = vec![Cell::Ref(0), Cell::Ref(1), Cell::Ref(0), Cell::Ref(1)];
    let heap_cells = m.get_heap();

    assert_eq!(heap_cells, &expected_heap_cells);
    register_is(&m, X(1), Cell::Ref(0));
    register_is(&m, X(2), Cell::Ref(1));
    assert_eq!(m.get_x_registers().len(), 2);
}

#[test]
fn test_put_structure() {
    let mut m = Machine::new();

    m.put_structure(f("foo", 2), X(1)).unwrap();
    m.set_variable(X(2)).unwrap();
    m.set_variable(X(3)).unwrap();
    m.set_value(X(2)).unwrap();

    let expected_heap_cells = vec![
        Cell::Str(1),
        Cell::Func(f("foo", 2)),
        Cell::Ref(2),
        Cell::Ref(3),
        Cell::Ref(2),
    ];

    let heap_cells = m.get_heap();

    println!("{:?}", m.get_x_registers());
    assert_eq!(heap_cells, &expected_heap_cells);
    register_is(&m, X(1), Cell::Str(1));
    register_is(&m, X(2), Cell::Ref(2));
    register_is(&m, X(3), Cell::Ref(3));
    assert_eq!(m.get_x_registers().len(), 3);
}

// The machine builds its own heaps (binding always points a younger
// cell at an older one), so the reference chains here are built with
// the public operations rather than written into the heap directly.
#[test]
fn test_deref() {
    let mut m = Machine::new();

    m.set_variable(X(1)).unwrap(); // heap[0] = Ref(0)
    m.set_variable(X(2)).unwrap(); // heap[1] = Ref(1)
    m.set_variable(X(3)).unwrap(); // heap[2] = Ref(2)
    m.set_variable(X(4)).unwrap(); // heap[3] = Ref(3)
    m.unify(Store::HeapAddr(3), Store::HeapAddr(2)).unwrap(); // heap[3] = Ref(2)
    m.unify(Store::HeapAddr(2), Store::HeapAddr(1)).unwrap(); // heap[2] = Ref(1)
    m.put_structure(f("f", 2), X(5)).unwrap(); // heap[4] = Str(5), heap[5] = Func(f/2)
    m.set_value(X(3)).unwrap(); // heap[6] = Ref(2)

    assert_eq!(m.deref(Store::HeapAddr(0)).unwrap(), Store::HeapAddr(0));
    assert_eq!(m.deref(Store::HeapAddr(1)).unwrap(), Store::HeapAddr(1));
    assert_eq!(m.deref(Store::HeapAddr(2)).unwrap(), Store::HeapAddr(1));
    assert_eq!(m.deref(Store::HeapAddr(3)).unwrap(), Store::HeapAddr(1));
    assert_eq!(m.deref(Store::HeapAddr(4)).unwrap(), Store::HeapAddr(4));
    assert_eq!(m.deref(Store::HeapAddr(5)).unwrap(), Store::HeapAddr(5));
    assert_eq!(m.deref(Store::HeapAddr(6)).unwrap(), Store::HeapAddr(1));
    assert_eq!(m.deref(Store::Register(X(3))).unwrap(), Store::HeapAddr(1));
}

#[test]
fn test_exercise_2_1() {
    let mut m = Machine::new();

    m.put_structure(f("h", 2), X(3)).unwrap();
    m.set_variable(X(2)).unwrap();
    m.set_variable(X(5)).unwrap();
    m.put_structure(f("f", 1), X(4)).unwrap();
    m.set_value(X(5)).unwrap();
    m.put_structure(f("p", 3), X(1)).unwrap();
    m.set_value(X(2)).unwrap();
    m.set_value(X(3)).unwrap();
    m.set_value(X(4)).unwrap();

    let expected_heap_cells = vec![
        Cell::Str(1),
        Cell::Func(f("h", 2)),
        Cell::Ref(2),
        Cell::Ref(3),
        Cell::Str(5),
        Cell::Func(f("f", 1)),
        Cell::Ref(3),
        Cell::Str(8),
        Cell::Func(f("p", 3)),
        Cell::Ref(2),
        Cell::Str(1),
        Cell::Str(5),
    ];

    let heap_cells = m.get_heap();
    assert_eq!(heap_cells, &expected_heap_cells);

    register_is(&m, X(1), Cell::Str(8));
    register_is(&m, X(2), Cell::Ref(2));
    register_is(&m, X(3), Cell::Str(1));
    register_is(&m, X(4), Cell::Str(5));
    register_is(&m, X(5), Cell::Ref(3));
}

#[test]
fn test_exercise_2_3() {
    let mut m = Machine::new();

    m.put_structure(f("h", 2), X(3)).unwrap();
    m.set_variable(X(2)).unwrap();
    m.set_variable(X(5)).unwrap();
    m.put_structure(f("f", 1), X(4)).unwrap();
    m.set_value(X(5)).unwrap();
    m.put_structure(f("p", 3), X(1)).unwrap();
    m.set_value(X(2)).unwrap();
    m.set_value(X(3)).unwrap();
    m.set_value(X(4)).unwrap();

    m.get_structure(f("p", 3), X(1)).unwrap();
    m.unify_variable(X(2)).unwrap();
    m.unify_variable(X(3)).unwrap();
    m.unify_variable(X(4)).unwrap();
    m.get_structure(f("f", 1), X(2)).unwrap();
    m.unify_variable(X(5)).unwrap();
    m.get_structure(f("h", 2), X(3)).unwrap();
    m.unify_value(X(4)).unwrap();
    m.unify_variable(X(6)).unwrap();
    m.get_structure(f("f", 1), X(6)).unwrap();
    m.unify_variable(X(7)).unwrap();
    m.get_structure(f("a", 0), X(7)).unwrap();

    let expected_heap_cells = vec![
        Cell::Str(1),
        Cell::Func(f("h", 2)),
        Cell::Str(13),
        Cell::Str(16),
        Cell::Str(5),
        Cell::Func(f("f", 1)),
        Cell::Ref(3),
        Cell::Str(8),
        Cell::Func(f("p", 3)),
        Cell::Ref(2),
        Cell::Str(1),
        Cell::Str(5),
        Cell::Str(13),
        Cell::Func(f("f", 1)),
        Cell::Ref(3),
        Cell::Str(16),
        Cell::Func(f("f", 1)),
        Cell::Str(19),
        Cell::Str(19),
        Cell::Func(f("a", 0)),
    ];

    let heap_cells = m.get_heap();
    assert_eq!(heap_cells, &expected_heap_cells);

    register_is(&m, X(1), Cell::Str(8));
    register_is(&m, X(2), Cell::Ref(2));
    register_is(&m, X(3), Cell::Str(1));
    register_is(&m, X(4), Cell::Str(5));
    register_is(&m, X(5), Cell::Ref(14));
    register_is(&m, X(6), Cell::Ref(3));
    register_is(&m, X(7), Cell::Ref(17));
}

#[test]
fn test_query_execution_2_6() {
    let mut m = Machine::new();

    m.put_variable(X(4), X(1)).unwrap();
    m.put_structure(f("h", 2), X(2)).unwrap();
    m.set_value(X(4)).unwrap();
    m.set_variable(X(5)).unwrap();
    m.put_structure(f("f", 1), X(3)).unwrap();
    m.set_value(X(5)).unwrap();

    let expected_heap_cells = vec![
        Cell::Ref(0),
        Cell::Str(2),
        Cell::Func(f("h", 2)),
        Cell::Ref(0),
        Cell::Ref(4),
        Cell::Str(6),
        Cell::Func(f("f", 1)),
        Cell::Ref(4),
    ];

    let heap_cells = m.get_heap();
    assert_eq!(heap_cells, &expected_heap_cells);
}

#[test]
fn test_exercise_2_7() {
    let mut m = Machine::new();

    m.put_variable(X(4), X(1)).unwrap();
    m.put_structure(f("h", 2), X(2)).unwrap();
    m.set_value(X(4)).unwrap();
    m.set_variable(X(5)).unwrap();
    m.put_structure(f("f", 1), X(3)).unwrap();
    m.set_value(X(5)).unwrap();

    m.get_structure(f("f", 1), X(1)).unwrap();
    m.unify_variable(X(4)).unwrap();
    m.get_structure(f("h", 2), X(2)).unwrap();
    m.unify_variable(X(5)).unwrap();
    m.unify_variable(X(6)).unwrap();
    m.get_value(X(5), X(3)).unwrap();
    m.get_structure(f("f", 1), X(6)).unwrap();
    m.unify_variable(X(7)).unwrap();
    m.get_structure(f("a", 0), X(7)).unwrap();
    m.proceed();

    let expected_heap_cells = vec![
        Cell::Str(9),
        Cell::Str(2),
        Cell::Func(f("h", 2)),
        Cell::Ref(0),
        Cell::Str(12),
        Cell::Str(6),
        Cell::Func(f("f", 1)),
        Cell::Ref(4),
        Cell::Str(9),
        Cell::Func(f("f", 1)),
        Cell::Ref(4),
        Cell::Str(12),
        Cell::Func(f("f", 1)),
        Cell::Str(15),
        Cell::Str(15),
        Cell::Func(f("a", 0)),
    ];

    let heap_cells = m.get_heap();
    assert_eq!(heap_cells, &expected_heap_cells);

    register_is(&m, X(1), Cell::Ref(0));
    register_is(&m, X(2), Cell::Str(2));
    register_is(&m, X(3), Cell::Str(6));
    register_is(&m, X(4), Cell::Ref(10));
    register_is(&m, X(5), Cell::Ref(0));
    register_is(&m, X(6), Cell::Ref(4));
    register_is(&m, X(7), Cell::Ref(13));
}

// Read mode holds after a successful structure match; the subterm
// pointer then walks the existing cells.
#[test]
fn test_unify_variable_read_mode() {
    let mut m = Machine::new();

    m.put_structure(f("g", 1), X(9)).unwrap(); // heap[0] = Str(1), heap[1] = Func(g/1)
    m.set_variable(X(8)).unwrap(); // heap[2] = Ref(2)
    m.get_structure(f("g", 1), X(9)).unwrap(); // read mode, S = 2

    assert_eq!(m.get_s(), 2);
    m.unify_variable(X(1)).unwrap();

    assert_eq!(m.get_x(1).cloned().unwrap(), Cell::Ref(2));
    assert_eq!(m.get_s(), 3);
}

// Write mode holds after matching an unbound variable; unification
// instructions then build fresh cells.
#[test]
fn test_unify_variable_write_mode() {
    let mut m = Machine::new();

    m.set_variable(X(2)).unwrap(); // heap[0] = Ref(0)
    m.get_structure(f("g", 1), X(2)).unwrap(); // write mode
    m.unify_variable(X(1)).unwrap();

    assert_eq!(m.get_heap()[3], Cell::Ref(3));
    assert_eq!(m.get_x(1).cloned().unwrap(), Cell::Ref(3));
    assert_eq!(m.get_h(), 4);
    assert_eq!(m.get_s(), 1);
}

#[test]
fn test_functor_eq() {
    let f1 = f("foo", 1);
    let f2 = f("bar", 1);

    assert_ne!(f1, f2);

    let f2 = f("foo", 1);
    assert_eq!(f1, f2);

    let f2 = f("foo", 2);
    assert_ne!(f1, f2);
}

//! The data model of the abstract machine: functors, tagged heap cells,
//! register identifiers and store addresses.

use vstd::prelude::*;

verus! {

/// A functor: the name/arity pair identifying a compound term's shape.
#[derive(Debug)]
pub struct Functor(pub String, pub usize);

/// Mathematical image of a [`Functor`]: the name as a sequence of
/// characters together with the arity.
pub struct FunctorV {
    pub name: Seq<char>,
    pub arity: usize,
}

impl View for Functor {
    type V = FunctorV;

    open spec fn view(&self) -> FunctorV {
        FunctorV { name: self.0@, arity: self.1 }
    }
}

impl Functor {
    /// The functor's name.
    pub fn name(&self) -> (r: &str)
        ensures
            r@ == self@.name,
    {
        self.0.as_str()
    }

    /// The functor's arity.
    pub fn arity(&self) -> (r: usize)
        ensures
            r == self@.arity,
    {
        self.1
    }
}

impl Clone for Functor {
    fn clone(&self) -> (r: Functor)
        ensures
            r@ == self@,
    {
        Functor(self.0.clone(), self.1)
    }
}

impl vstd::std_specs::cmp::PartialEqSpecImpl for Functor {
    open spec fn obeys_eq_spec() -> bool {
        true
    }

    open spec fn eq_spec(&self, o: &Functor) -> bool {
        self@ == o@
    }
}

impl PartialEq for Functor {
    fn eq(&self, o: &Functor) -> (r: bool) {
        self.0 == o.0 && self.1 == o.1
    }
}

/// A tagged heap cell.
///
/// `Ref(a)` is a variable cell: unbound when it sits at heap index `a`
/// itself, bound otherwise.  `Str(a)` points at the functor cell of a
/// structure.  `Func(f)` is a functor descriptor.
#[derive(Debug)]
pub enum Cell {
    Str(usize),
    Ref(usize),
    Func(Functor),
}

/// Mathematical image of a [`Cell`].
pub enum CellV {
    Str(usize),
    Ref(usize),
    Func(FunctorV),
}

impl View for Cell {
    type V = CellV;

    open spec fn view(&self) -> CellV {
        match self {
            Cell::Str(a) => CellV::Str(*a),
            Cell::Ref(a) => CellV::Ref(*a),
            Cell::Func(f) => CellV::Func(f@),
        }
    }
}

impl Clone for Cell {
    fn clone(&self) -> (r: Cell)
        ensures
            r@ == self@,
    {
        match self {
            Cell::Str(a) => Cell::Str(*a),
            Cell::Ref(a) => Cell::Ref(*a),
            Cell::Func(f) => Cell::Func(f.clone()),
        }
    }
}

impl vstd::std_specs::cmp::PartialEqSpecImpl for Cell {
    open spec fn obeys_eq_spec() -> bool {
        true
    }

    open spec fn eq_spec(&self, o: &Cell) -> bool {
        self@ == o@
    }
}

impl PartialEq for Cell {
    fn eq(&self, o: &Cell) -> (r: bool) {
        match (self, o) {
            (Cell::Str(a), Cell::Str(b)) => a == b,
            (Cell::Ref(a), Cell::Ref(b)) => a == b,
            (Cell::Func(f), Cell::Func(g)) => f == g,
            _ => false,
        }
    }
}

/// The address a `Str` or `Ref` cell carries, if any.
pub open spec fn cell_target(c: CellV) -> Option<usize> {
    match c {
        CellV::Str(a) => Some(a),
        CellV::Ref(a) => Some(a),
        CellV::Func(_) => None,
    }
}

impl Cell {
    /// Whether the cell is a `Ref`.
    pub fn is_ref(&self) -> (r: bool)
        ensures
            r == (self@ is Ref),
    {
        matches!(self, Cell::Ref(_))
    }

    /// Whether the cell is a `Str`.
    pub fn is_str(&self) -> (r: bool)
        ensures
            r == (self@ is Str),
    {
        matches!(self, Cell::Str(_))
    }

    /// Whether the cell is a functor descriptor.
    pub fn is_func(&self) -> (r: bool)
        ensures
            r == (self@ is Func),
    {
        matches!(self, Cell::Func(_))
    }

    /// The heap address carried by a `Str` or `Ref` cell.
    pub fn address(&self) -> (r: Option<usize>)
        ensures
            r == cell_target(self@),
    {
        match self {
            Cell::Str(a) => Some(*a),
            Cell::Ref(a) => Some(*a),
            Cell::Func(_) => None,
        }
    }
}

/// A register identifier: `X(i)` lives in the temporary register file,
/// `Y(i)` in the current environment frame.  Registers are 1-indexed.
#[derive(Debug, Clone, Copy, PartialEq, Eq, Structural)]
pub enum Register {
    X(usize),
    Y(usize),
}

impl Register {
    /// Whether this is a temporary (`X`) register.
    pub fn is_x(&self) -> (r: bool)
        ensures
            r == (*self is X),
    {
        matches!(self, Register::X(_))
    }

    /// Whether this is a permanent (`Y`) register.
    pub fn is_y(&self) -> (r: bool)
        ensures
            r == (*self is Y),
    {
        matches!(self, Register::Y(_))
    }

    /// The register's index.
    pub fn address(&self) -> (r: usize)
        ensures
            r == reg_index(*self),
    {
        match self {
            Register::X(a) => *a,
            Register::Y(a) => *a,
        }
    }
}

/// The index a register identifier carries.
pub open spec fn reg_index(r: Register) -> usize {
    match r {
        Register::X(a) => a,
        Register::Y(a) => a,
    }
}

/// A store address: either a heap index or a register, so that `deref`,
/// `bind` and the unification work list can address both uniformly.
#[derive(Debug, Clone, Copy, PartialEq, Eq, Structural)]
pub enum Store {
    HeapAddr(usize),
    Register(Register),
}

impl Store {
    /// Whether the address points into the heap.
    pub fn is_heap(&self) -> (r: bool)
        ensures
            r == (*self is HeapAddr),
    {
        matches!(self, Store::HeapAddr(_))
    }

    /// Whether the address is a temporary register.
    pub fn is_x(&self) -> (r: bool)
        ensures
            r == (*self matches Store::Register(Register::X(_))),
    {
        matches!(self, Store::Register(Register::X(_)))
    }

    /// Whether the address is a permanent register.
    pub fn is_y(&self) -> (r: bool)
        ensures
            r == (*self matches Store::Register(Register::Y(_))),
    {
        matches!(self, Store::Register(Register::Y(_)))
    }

    /// The heap index or register index carried by the address.
    pub fn address(&self) -> (r: usize)
        ensures
            r == store_index(*self),
    {
        match self {
            Store::HeapAddr(a) => *a,
            Store::Register(r) => r.address(),
        }
    }
}

/// The raw index a store address carries.
pub open spec fn store_index(s: Store) -> usize {
    match s {
        Store::HeapAddr(a) => a,
        Store::Register(r) => reg_index(r),
    }
}

} // verus!

//! The abstract machine: tagged-cell heap, register file, environment
//! stack, unification work list, code store and the instruction executor.

use vstd::prelude::*;

use crate::cells::cell_target;
use crate::cells::Cell;
use crate::cells::CellV;
use crate::cells::Functor;
use crate::cells::FunctorV;
use crate::cells::Register;
use crate::cells::Store;

verus! {

/// The structural (programmer) errors of the machine.  Unification
/// failure is not an error: it is reported through the `fail` flag.
#[derive(Debug, Clone, Copy, PartialEq, Eq, Structural)]
pub enum MachineError {
    /// A `Call` targeted a functor with no entry address.
    UnknownFunctor,
    /// A cell or frame slot did not have the shape an operation needs,
    /// or a machine limit (an index at the top of the address space)
    /// was reached.
    InvalidCell,
    /// A register was read before any write, or a register index was 0.
    RegisterUnderflow,
    /// A term or rule did not have the shape the compiler needs.
    MalformedAst,
    /// The surface text could not be parsed.
    ParseError,
}

/// The read/write mode of the structure-matching protocol.
#[derive(Debug, Clone, Copy, PartialEq, Eq, Structural)]
pub enum Mode {
    Read,
    Write,
}

/// A slot of the environment stack: either control information (a code
/// address, a saved E, a frame size) or a permanent-variable cell.
#[derive(Debug)]
pub enum Frame {
    Code(usize),
    Cell(Cell),
}

/// Mathematical image of a [`Frame`].
pub enum FrameV {
    Code(usize),
    Cell(CellV),
}

impl View for Frame {
    type V = FrameV;

    open spec fn view(&self) -> FrameV {
        match self {
            Frame::Code(a) => FrameV::Code(*a),
            Frame::Cell(c) => FrameV::Cell(c@),
        }
    }
}

/// One instruction of the abstract machine.
#[derive(Debug)]
pub enum Instruction {
    PutStructure(Functor, Register),
    GetStructure(Functor, Register),
    SetVariable(Register),
    UnifyVariable(Register),
    SetValue(Register),
    UnifyValue(Register),
    PutVariable(Register, Register),
    PutValue(Register, Register),
    GetValue(Register, Register),
    GetVariable(Register, Register),
    Allocate(usize),
    Deallocate,
    Call(Functor),
    Proceed,
}

/// Mathematical image of an [`Instruction`].
pub enum InstrV {
    PutStructure(FunctorV, Register),
    GetStructure(FunctorV, Register),
    SetVariable(Register),
    UnifyVariable(Register),
    SetValue(Register),
    UnifyValue(Register),
    PutVariable(Register, Register),
    PutValue(Register, Register),
    GetValue(Register, Register),
    GetVariable(Register, Register),
    Allocate(usize),
    Deallocate,
    Call(FunctorV),
    Proceed,
}

impl View for Instruction {
    type V = InstrV;

    open spec fn view(&self) -> InstrV {
        match self {
            Instruction::PutStructure(f, x) => InstrV::PutStructure(f@, *x),
            Instruction::GetStructure(f, x) => InstrV::GetStructure(f@, *x),
            Instruction::SetVariable(x) => InstrV::SetVariable(*x),
            Instruction::UnifyVariable(x) => InstrV::UnifyVariable(*x),
            Instruction::SetValue(x) => InstrV::SetValue(*x),
            Instruction::UnifyValue(x) => InstrV::UnifyValue(*x),
            Instruction::PutVariable(x, a) => InstrV::PutVariable(*x, *a),
            Instruction::PutValue(x, a) => InstrV::PutValue(*x, *a),
            Instruction::GetValue(x, a) => InstrV::GetValue(*x, *a),
            Instruction::GetVariable(x, a) => InstrV::GetVariable(*x, *a),
            Instruction::Allocate(n) => InstrV::Allocate(*n),
            Instruction::Deallocate => InstrV::Deallocate,
            Instruction::Call(f) => InstrV::Call(f@),
            Instruction::Proceed => InstrV::Proceed,
        }
    }
}

impl Clone for Instruction {
    fn clone(&self) -> (r: Instruction)
        ensures
            r@ == self@,
    {
        match self {
            Instruction::PutStructure(f, x) => Instruction::PutStructure(f.clone(), *x),
            Instruction::GetStructure(f, x) => Instruction::GetStructure(f.clone(), *x),
            Instruction::SetVariable(x) => Instruction::SetVariable(*x),
            Instruction::UnifyVariable(x) => Instruction::UnifyVariable(*x),
            Instruction::SetValue(x) => Instruction::SetValue(*x),
            Instruction::UnifyValue(x) => Instruction::UnifyValue(*x),
            Instruction::PutVariable(x, a) => Instruction::PutVariable(*x, *a),
            Instruction::PutValue(x, a) => Instruction::PutValue(*x, *a),
            Instruction::GetValue(x, a) => Instruction::GetValue(*x, *a),
            Instruction::GetVariable(x, a) => Instruction::GetVariable(*x, *a),
            Instruction::Allocate(n) => Instruction::Allocate(*n),
            Instruction::Deallocate => Instruction::Deallocate,
            Instruction::Call(f) => Instruction::Call(f.clone()),
            Instruction::Proceed => Instruction::Proceed,
        }
    }
}

impl vstd::std_specs::cmp::PartialEqSpecImpl for Instruction {
    open spec fn obeys_eq_spec() -> bool {
        true
    }

    open spec fn eq_spec(&self, o: &Instruction) -> bool {
        self@ == o@
    }
}

impl PartialEq for Instruction {
    fn eq(&self, o: &Instruction) -> (r: bool) {
        match (self, o) {
            (Instruction::PutStructure(f, x), Instruction::PutStructure(g, y)) => f == g && x
                == y,
            (Instruction::GetStructure(f, x), Instruction::GetStructure(g, y)) => f == g && x
                == y,
            (Instruction::SetVariable(x), Instruction::SetVariable(y)) => x == y,
            (Instruction::UnifyVariable(x), Instruction::UnifyVariable(y)) => x == y,
            (Instruction::SetValue(x), Instruction::SetValue(y)) => x == y,
            (Instruction::UnifyValue(x), Instruction::UnifyValue(y)) => x == y,
            (Instruction::PutVariable(x, a), Instruction::PutVariable(y, b)) => x == y && a == b,
            (Instruction::PutValue(x, a), Instruction::PutValue(y, b)) => x == y && a == b,
            (Instruction::GetValue(x, a), Instruction::GetValue(y, b)) => x == y && a == b,
            (Instruction::GetVariable(x, a), Instruction::GetVariable(y, b)) => x == y && a == b,
            (Instruction::Allocate(n), Instruction::Allocate(m)) => n == m,
            (Instruction::Deallocate, Instruction::Deallocate) => true,
            (Instruction::Call(f), Instruction::Call(g)) => f == g,
            (Instruction::Proceed, Instruction::Proceed) => true,
            _ => false,
        }
    }
}

/// The code store: a linear instruction area together with an
/// association list from functor to entry address.  A later entry for
/// the same functor overrides an earlier one.
struct Code {
    area: Vec<Instruction>,
    entries: Vec<(Functor, usize)>,
}

/// The machine's control registers.
struct Registers {
    h: usize,
    x: Vec<Option<Cell>>,
    s: usize,
    p: usize,
    cp: usize,
    e: usize,
}

/// The abstract machine.
pub struct Machine {
    heap: Vec<Cell>,
    pdl: Vec<Store>,
    code: Code,
    stack: Vec<Option<Frame>>,
    registers: Registers,
    mode: Mode,
    fail: bool,
}

/// Mathematical image of the whole machine state.
#[verifier::ext_equal]
pub struct MState {
    pub heap: Seq<CellV>,
    pub x: Seq<Option<CellV>>,
    pub stack: Seq<Option<FrameV>>,
    pub pdl: Seq<Store>,
    pub code: Seq<InstrV>,
    pub entries: Seq<(FunctorV, usize)>,
    pub h: usize,
    pub s: usize,
    pub p: usize,
    pub cp: usize,
    pub e: usize,
    pub mode: Mode,
    pub fail: bool,
}

/// View of a sequence of cells.
pub open spec fn cells_view(s: Seq<Cell>) -> Seq<CellV> {
    s.map_values(|c: Cell| c@)
}

/// View of an optional cell.
pub open spec fn opt_cell_view(o: Option<Cell>) -> Option<CellV> {
    match o {
        Some(c) => Some(c@),
        None => None,
    }
}

/// View of an optional frame.
pub open spec fn opt_frame_view(o: Option<Frame>) -> Option<FrameV> {
    match o {
        Some(f) => Some(f@),
        None => None,
    }
}

impl MState {
    /// The state of a fresh machine.
    pub open spec fn init() -> MState {
        MState {
            heap: Seq::empty(),
            x: Seq::empty(),
            stack: Seq::empty(),
            pdl: Seq::empty(),
            code: Seq::empty(),
            entries: Seq::empty(),
            h: 0,
            s: 0,
            p: 0,
            cp: 0,
            e: 0,
            mode: Mode::Read,
            fail: false,
        }
    }
}

/// Well-formedness of one heap cell: a `Ref` points at its own address
/// or below it (so reference chains always descend), and a `Str` points
/// at a functor descriptor.
pub open spec fn heap_cell_ok(heap: Seq<CellV>, a: int) -> bool {
    match heap[a] {
        CellV::Ref(v) => v <= a,
        CellV::Str(v) => v < heap.len() && heap[v as int] is Func,
        CellV::Func(_) => true,
    }
}

/// Well-formedness of the heap.
pub open spec fn heap_ok(heap: Seq<CellV>) -> bool {
    forall|a: int| 0 <= a < heap.len() ==> #[trigger] heap_cell_ok(heap, a)
}

/// Well-formedness of a cell held in a register or stack slot: its
/// address points into the heap, and a `Str` points at a functor.
pub open spec fn rcell_ok(heap: Seq<CellV>, c: CellV) -> bool {
    match c {
        CellV::Ref(v) => v < heap.len(),
        CellV::Str(v) => v < heap.len() && heap[v as int] is Func,
        CellV::Func(_) => true,
    }
}

/// Well-formedness of the temporary register file.
pub open spec fn x_ok(heap: Seq<CellV>, x: Seq<Option<CellV>>) -> bool {
    forall|i: int|
        0 <= i < x.len() ==> match #[trigger] x[i] {
            Some(c) => rcell_ok(heap, c),
            None => true,
        }
}

/// Well-formedness of the environment stack.
pub open spec fn stack_ok(heap: Seq<CellV>, stack: Seq<Option<FrameV>>) -> bool {
    forall|i: int|
        0 <= i < stack.len() ==> match #[trigger] stack[i] {
            Some(FrameV::Cell(c)) => rcell_ok(heap, c),
            _ => true,
        }
}

impl MState {
    /// The machine invariant: every instruction preserves it.
    pub open spec fn wf(self) -> bool {
        &&& heap_ok(self.heap)
        &&& x_ok(self.heap, self.x)
        &&& stack_ok(self.heap, self.stack)
        &&& self.h == self.heap.len()
    }
}

/// The cell a temporary register holds, if any.
pub open spec fn x_cell(st: MState, i: usize) -> Option<CellV> {
    if 1 <= i <= st.x.len() {
        st.x[i - 1]
    } else {
        None
    }
}

/// The cell a permanent register holds, if any.  `Y(i)` lives at stack
/// slot `E + 2 + i`, and is read only when the current frame records a
/// size of at least `i`.
pub open spec fn y_cell(st: MState, i: usize) -> Option<CellV> {
    if 1 <= i && st.e + 2 < st.stack.len() && st.e + 2 + i < st.stack.len() {
        match st.stack[st.e + 2] {
            Some(FrameV::Code(n)) => if i <= n {
                match st.stack[st.e + 2 + i] {
                    Some(FrameV::Cell(c)) => Some(c),
                    _ => None,
                }
            } else {
                None
            },
            _ => None,
        }
    } else {
        None
    }
}

/// The cell a register holds, if any.
pub open spec fn reg_cell(st: MState, r: Register) -> Option<CellV> {
    match r {
        Register::X(i) => x_cell(st, i),
        Register::Y(i) => y_cell(st, i),
    }
}

/// Whether a register can be written: `X(i)` for any `i >= 1` (the file
/// grows on demand), `Y(i)` only within the current environment frame.
pub open spec fn reg_writable(st: MState, r: Register) -> bool {
    match r {
        Register::X(i) => i >= 1,
        Register::Y(i) => {
            &&& i >= 1
            &&& st.e + 2 < st.stack.len()
            &&& st.e + 2 + i < st.stack.len()
            &&& match st.stack[st.e + 2] {
                Some(FrameV::Code(n)) => i <= n,
                _ => false,
            }
        },
    }
}

/// The temporary register file after writing cell `c` to `X(i)`,
/// growing the file on demand.
pub open spec fn x_written(x: Seq<Option<CellV>>, i: usize, c: CellV) -> Seq<Option<CellV>> {
    let grown = if i > x.len() {
        x + Seq::new((i - x.len()) as nat, |k: int| None)
    } else {
        x
    };
    grown.update(i - 1, Some(c))
}

/// The machine state after writing cell `c` to register `r`.
pub open spec fn reg_written(st: MState, r: Register, c: CellV) -> MState {
    match r {
        Register::X(i) => MState { x: x_written(st.x, i, c), ..st },
        Register::Y(i) => MState {
            stack: st.stack.update(st.e + 2 + i, Some(FrameV::Cell(c))),
            ..st
        },
    }
}

impl Machine {
    /// The mathematical state of the machine.
    pub closed spec fn st(&self) -> MState {
        MState {
            heap: cells_view(self.heap@),
            x: self.registers.x@.map_values(|o: Option<Cell>| opt_cell_view(o)),
            stack: self.stack@.map_values(|o: Option<Frame>| opt_frame_view(o)),
            pdl: self.pdl@,
            code: self.code.area@.map_values(|i: Instruction| i@),
            entries: self.code.entries@.map_values(|p: (Functor, usize)| (p.0@, p.1)),
            h: self.registers.h,
            s: self.registers.s,
            p: self.registers.p,
            cp: self.registers.cp,
            e: self.registers.e,
            mode: self.mode,
            fail: self.fail,
        }
    }

    /// The machine invariant.
    pub open spec fn wf(&self) -> bool {
        self.st().wf()
    }

    /// A fresh machine: empty heap, code, stack and registers.
    pub fn new() -> (m: Machine)
        ensures
            m.st() == MState::init(),
            m.wf(),
    {
        let m = Machine {
            heap: Vec::new(),
            pdl: Vec::new(),
            code: Code { area: Vec::new(), entries: Vec::new() },
            stack: Vec::new(),
            registers: Registers { h: 0, x: Vec::new(), s: 0, p: 0, cp: 0, e: 0 },
            mode: Mode::Read,
            fail: false,
        };
        proof {
            assert(m.st() =~= MState::init());
        }
        m
    }

    /// Whether the machine has not failed.
    pub fn is_true(&self) -> (r: bool)
        ensures
            r == !self.st().fail,
    {
        !self.fail
    }

    /// Whether the machine has failed.
    pub fn is_false(&self) -> (r: bool)
        ensures
            r == self.st().fail,
    {
        self.fail
    }

    /// The heap.
    pub fn get_heap(&self) -> (r: &Vec<Cell>)
        ensures
            cells_view(r@) == self.st().heap,
    {
        &self.heap
    }

    /// The temporary register file.
    pub fn get_x_registers(&self) -> (r: &Vec<Option<Cell>>)
        ensures
            r@.map_values(|o: Option<Cell>| opt_cell_view(o)) == self.st().x,
    {
        &self.registers.x
    }

    /// The code area.
    pub fn get_code(&self) -> (r: &Vec<Instruction>)
        ensures
            r@.map_values(|i: Instruction| i@) == self.st().code,
    {
        &self.code.area
    }

    /// The subterm register S.
    pub fn get_s(&self) -> (r: usize)
        ensures
            r == self.st().s,
    {
        self.registers.s
    }

    /// The heap counter H.
    pub fn get_h(&self) -> (r: usize)
        ensures
            r == self.st().h,
    {
        self.registers.h
    }

    /// The program counter P.
    pub fn get_p(&self) -> (r: usize)
        ensures
            r == self.st().p,
    {
        self.registers.p
    }

    /// The continuation register CP.
    pub fn get_cp(&self) -> (r: usize)
        ensures
            r == self.st().cp,
    {
        self.registers.cp
    }

    /// The environment register E.
    pub fn get_e(&self) -> (r: usize)
        ensures
            r == self.st().e,
    {
        self.registers.e
    }

    /// Read a temporary register.
    pub fn get_x(&self, xi: usize) -> (r: Option<&Cell>)
        ensures
            opt_ref_cell_view(r) == x_cell(self.st(), xi),
    {
        if 1 <= xi && xi <= self.registers.x.len() {
            self.registers.x[xi - 1].as_ref()
        } else {
            None
        }
    }

    /// Read a permanent register of the current environment frame.
    pub fn get_y(&self, yi: usize) -> (r: Option<&Cell>)
        ensures
            opt_ref_cell_view(r) == y_cell(self.st(), yi),
    {
        let e = self.registers.e;
        let len = self.stack.len();
        if 1 <= yi && e < len && len - e > 2 && yi < len - e - 2 {
            let n: usize = match &self.stack[e + 2] {
                Some(Frame::Code(n)) => *n,
                _ => {
                    return None;
                },
            };
            if yi <= n {
                match &self.stack[e + 2 + yi] {
                    Some(Frame::Cell(c)) => Some(c),
                    _ => None,
                }
            } else {
                None
            }
        } else {
            None
        }
    }

    /// Read a register.
    pub fn get_register(&self, register: Register) -> (r: Option<&Cell>)
        ensures
            opt_ref_cell_view(r) == reg_cell(self.st(), register),
    {
        match register {
            Register::X(xi) => self.get_x(xi),
            Register::Y(yi) => self.get_y(yi),
        }
    }
}

/// View of an optional cell reference.
pub open spec fn opt_ref_cell_view(o: Option<&Cell>) -> Option<CellV> {
    match o {
        Some(c) => Some(c@),
        None => None,
    }
}

/// The entry address an association list records for a functor: the
/// latest entry wins.
pub open spec fn entry_lookup(es: Seq<(FunctorV, usize)>, f: FunctorV) -> Option<usize>
    decreases es.len(),
{
    if es.len() == 0 {
        None
    } else if es.last().0 == f {
        Some(es.last().1)
    } else {
        entry_lookup(es.drop_last(), f)
    }
}

/// Whether a store address can be read: a heap index in range, or a
/// register that holds a cell.
pub open spec fn store_valid(st: MState, s: Store) -> bool {
    match s {
        Store::HeapAddr(a) => a < st.heap.len(),
        Store::Register(r) => reg_cell(st, r) is Some,
    }
}

/// The cell a store address denotes, if any.
pub open spec fn store_cell_v(st: MState, s: Store) -> Option<CellV> {
    match s {
        Store::HeapAddr(a) => if a < st.heap.len() {
            Some(st.heap[a as int])
        } else {
            None
        },
        Store::Register(r) => reg_cell(st, r),
    }
}

/// The functor a cell denotes: directly for `Func`, through the heap
/// for `Str`.
pub open spec fn cell_functor(st: MState, c: CellV) -> Option<FunctorV> {
    match c {
        CellV::Str(a) => if a < st.heap.len() {
            match st.heap[a as int] {
                CellV::Func(f) => Some(f),
                _ => None,
            }
        } else {
            None
        },
        CellV::Func(f) => Some(f),
        CellV::Ref(_) => None,
    }
}

/// The heap address `deref` reaches from heap address `a`: the chain
/// of bound `Ref` cells is followed down to an unbound `Ref`, a `Str`
/// or a `Func`.
pub open spec fn deref_heap(heap: Seq<CellV>, a: usize) -> usize
    decreases a,
        when heap_ok(heap) && a < heap.len()
        via deref_heap_dec
{
    match heap[a as int] {
        CellV::Ref(v) => if v == a {
            a
        } else {
            deref_heap(heap, v)
        },
        _ => a,
    }
}

#[via_fn]
proof fn deref_heap_dec(heap: Seq<CellV>, a: usize) {
    assert(heap_cell_ok(heap, a as int));
}

/// The store address `deref` reaches from a store address: a register
/// holding a `Ref` steps into the heap on the first hop; a register
/// holding anything else is returned as it stands.
pub open spec fn deref_store(st: MState, s: Store) -> Store {
    match s {
        Store::HeapAddr(a) => Store::HeapAddr(deref_heap(st.heap, a)),
        Store::Register(r) => match reg_cell(st, r) {
            Some(CellV::Ref(v)) => Store::HeapAddr(deref_heap(st.heap, v)),
            _ => s,
        },
    }
}

/// What holds of every address `deref` returns: it is readable, and
/// if it holds a `Ref` the `Ref` is unbound (self-referential).
pub open spec fn derefed(st: MState, d: Store) -> bool {
    match d {
        Store::HeapAddr(a) => a < st.heap.len() && match st.heap[a as int] {
            CellV::Ref(v) => v == a,
            _ => true,
        },
        Store::Register(r) => match reg_cell(st, r) {
            Some(c) => !(c is Ref),
            None => false,
        },
    }
}

/// The machine state `bind` produces from the two cells it read: the
/// unbound side is overwritten with the other cell; between two `Ref`s
/// the younger (higher) address is overwritten with the older cell.
pub open spec fn bind_tgt(st: MState, c1: CellV, c2: CellV) -> MState {
    let t1 = cell_target(c1).unwrap();
    let t2 = cell_target(c2).unwrap();
    if c1 is Ref && (!(c2 is Ref) || t2 < t1) {
        MState { heap: st.heap.update(t1 as int, c2), ..st }
    } else {
        MState { heap: st.heap.update(t2 as int, c1), ..st }
    }
}

/// The binding rule is symmetric: `bind` writes the same heap whether
/// its two addresses are given in one order or the other.
pub proof fn lemma_bind_symmetric(st: MState, c1: CellV, c2: CellV)
    requires
        c1 is Ref || c2 is Ref,
        !(c1 is Func),
        !(c2 is Func),
    ensures
        bind_tgt(st, c1, c2) == bind_tgt(st, c2, c1),
{
    let t1 = cell_target(c1).unwrap();
    let t2 = cell_target(c2).unwrap();
    if c1 is Ref && c2 is Ref && t1 == t2 {
        assert(c1 == CellV::Ref(t1));
        assert(c2 == CellV::Ref(t2));
    }
}

/// The machine state `GetStructure(f, xi)` produces when `xi` holds an
/// unbound variable at heap address `t`: a fresh structure shell is
/// built and the variable is bound to it; mode becomes Write.
pub open spec fn gs_write_tgt(st: MState, f: FunctorV, t: usize) -> MState {
    MState {
        heap: (st.heap + seq![CellV::Str((st.h + 1) as usize), CellV::Func(f)]).update(
            t as int,
            CellV::Str((st.h + 1) as usize),
        ),
        h: (st.h + 2) as usize,
        mode: Mode::Write,
        ..st
    }
}

/// The machine state `UnifyVariable(xi)` produces in read mode.
pub open spec fn uv_read_tgt(st: MState, xi: Register) -> MState {
    MState { s: (st.s + 1) as usize, ..reg_written(st, xi, st.heap[st.s as int]) }
}

/// The machine state `UnifyVariable(xi)` produces in write mode.
pub open spec fn uv_write_tgt(st: MState, xi: Register) -> MState {
    MState { s: (st.s + 1) as usize, ..set_variable_tgt(st, xi) }
}

/// Where `Allocate` places the next environment frame: at slot 1 when
/// no frame is live, else just past the current frame.  `None` when
/// the current frame's size slot is missing or malformed.
pub open spec fn alloc_new_e(st: MState) -> Option<int> {
    if st.e == 0 {
        Some(1int)
    } else if st.e + 2 < st.stack.len() {
        match st.stack[st.e + 2] {
            Some(FrameV::Code(ncur)) => Some(st.e + ncur + 3),
            _ => None,
        }
    } else {
        None
    }
}

/// The environment stack after `Allocate(n)` put a frame at `new_e`,
/// with the permanent slots cleared up to `j` (a full allocation has
/// `j == n`).
pub open spec fn alloc_stack_partial(st: MState, n: usize, new_e: usize, j: int) -> Seq<
    Option<FrameV>,
> {
    let need = new_e + 3 + n;
    let len2 = if st.stack.len() >= need {
        st.stack.len() as int
    } else {
        need
    };
    Seq::new(
        len2 as nat,
        |i: int|
            if i == new_e {
                Some(FrameV::Code(st.e))
            } else if i == new_e + 1 {
                Some(FrameV::Code(st.cp))
            } else if i == new_e + 2 {
                Some(FrameV::Code(n))
            } else if new_e + 3 <= i < new_e + 3 + j {
                None
            } else if i < st.stack.len() {
                st.stack[i]
            } else {
                None
            },
    )
}

/// The machine state `Allocate(n)` produces: a frame of size `n` at
/// `new_e` holding the previous E, the saved CP and `n`, with cleared
/// permanent slots; E moves to the new frame and P self-advances.
pub open spec fn alloc_tgt(st: MState, n: usize, new_e: usize) -> MState {
    MState {
        stack: alloc_stack_partial(st, n, new_e, n as int),
        e: new_e,
        p: (st.p + 1) as usize,
        ..st
    }
}

/// What unification never touches: everything but the heap contents,
/// the work list and the fail flag.  The heap keeps its length, and a
/// cell changes only if it was a `Ref` cell (binding mutates variable
/// cells in place and never appends).
pub open spec fn unify_frame(st0: MState, st1: MState) -> bool {
    &&& st1.x == st0.x
    &&& st1.stack == st0.stack
    &&& st1.code == st0.code
    &&& st1.entries == st0.entries
    &&& st1.h == st0.h
    &&& st1.s == st0.s
    &&& st1.p == st0.p
    &&& st1.cp == st0.cp
    &&& st1.e == st0.e
    &&& st1.mode == st0.mode
    &&& st1.heap.len() == st0.heap.len()
    &&& forall|i: int|
        0 <= i < st0.heap.len() && st1.heap[i] != st0.heap[i] ==> (#[trigger] st0.heap[i]) is Ref
}

/// Two addresses that dereference to the same place: unification must
/// succeed without touching the heap.
pub open spec fn unify_trivial(st: MState, a1: Store, a2: Store) -> bool {
    &&& st.pdl.len() == 0
    &&& store_valid(st, a1)
    &&& store_valid(st, a2)
    &&& deref_store(st, a1) == deref_store(st, a2)
}

/// Two addresses that dereference to distinct structures with
/// different functors: unification must raise the fail flag.
pub open spec fn unify_clash(st: MState, a1: Store, a2: Store) -> bool {
    let d1 = deref_store(st, a1);
    let d2 = deref_store(st, a2);
    let c1 = store_cell_v(st, d1).unwrap();
    let c2 = store_cell_v(st, d2).unwrap();
    &&& st.pdl.len() == 0
    &&& store_valid(st, a1)
    &&& store_valid(st, a2)
    &&& d1 != d2
    &&& c1 is Str
    &&& c2 is Str
    &&& cell_functor(st, c1) != cell_functor(st, c2)
}

/// The pairs of argument addresses a functor match pushes on the work
/// list, in push order: for each argument position the first side's
/// address, then the second side's.
pub open spec fn unify_arg_pairs(t1: usize, t2: usize, n: usize) -> Seq<Store> {
    Seq::new(
        2 * n as nat,
        |k: int|
            if k % 2 == 0 {
                Store::HeapAddr((t1 + k / 2 + 1) as usize)
            } else {
                Store::HeapAddr((t2 + (k - 1) / 2 + 1) as usize)
            },
    )
}

/// The error an unreadable store address reports: a heap index out of
/// range is an invalid cell, an unset register an underflow.
pub open spec fn store_err_kind(s: Store) -> MachineError {
    match s {
        Store::HeapAddr(_) => MachineError::InvalidCell,
        Store::Register(_) => MachineError::RegisterUnderflow,
    }
}

/// The exact result of running the unification work list to
/// completion within a step budget: the final machine state, and the
/// structural error met on the way, if any.  The loop is
/// deterministic, so this function is the whole truth about `unify`:
/// pop two addresses, dereference both, skip equal addresses, bind
/// when a side is a variable, and on a functor match push the
/// argument pairs; a functor mismatch raises the fail flag, which
/// stops the loop.
pub open spec fn unify_run(st: MState, fuel: nat) -> (MState, Option<MachineError>)
    decreases fuel,
{
    if st.pdl.len() == 0 || st.fail {
        (st, None)
    } else if fuel == 0 {
        (st, Some(MachineError::InvalidCell))
    } else {
        let s1 = st.pdl.last();
        let sta = MState { pdl: st.pdl.drop_last(), ..st };
        if sta.pdl.len() == 0 {
            (sta, Some(MachineError::InvalidCell))
        } else {
            let s2 = sta.pdl.last();
            let stb = MState { pdl: sta.pdl.drop_last(), ..sta };
            if !store_valid(stb, s1) {
                (stb, Some(store_err_kind(s1)))
            } else if !store_valid(stb, s2) {
                (stb, Some(store_err_kind(s2)))
            } else {
                let d1 = deref_store(stb, s1);
                let d2 = deref_store(stb, s2);
                if d1 == d2 {
                    unify_run(stb, (fuel - 1) as nat)
                } else {
                    let c1 = store_cell_v(stb, d1).unwrap();
                    let c2 = store_cell_v(stb, d2).unwrap();
                    if c1 is Ref || c2 is Ref {
                        if c1 is Func || c2 is Func {
                            (stb, Some(MachineError::InvalidCell))
                        } else {
                            unify_run(bind_tgt(stb, c1, c2), (fuel - 1) as nat)
                        }
                    } else if c1 is Func || c2 is Func {
                        (stb, Some(MachineError::InvalidCell))
                    } else if cell_functor(stb, c1) is None || cell_functor(stb, c2) is None {
                        (stb, Some(MachineError::InvalidCell))
                    } else {
                        let f1 = cell_functor(stb, c1).unwrap();
                        let f2 = cell_functor(stb, c2).unwrap();
                        if f1 == f2 {
                            let t1 = c1->Str_0;
                            let t2 = c2->Str_0;
                            if f1.arity > 0 && (t1 + f1.arity > usize::MAX || t2 + f1.arity
                                > usize::MAX) {
                                (stb, Some(MachineError::InvalidCell))
                            } else {
                                unify_run(
                                    MState {
                                        pdl: stb.pdl + unify_arg_pairs(t1, t2, f1.arity),
                                        ..stb
                                    },
                                    (fuel - 1) as nat,
                                )
                            }
                        } else {
                            unify_run(MState { fail: true, ..stb }, (fuel - 1) as nat)
                        }
                    }
                }
            }
        }
    }
}

/// The initial state a call of `unify(a1, a2)` runs the work list
/// from: the two addresses pushed, the fail flag cleared.
pub open spec fn unify_init(st: MState, a1: Store, a2: Store) -> MState {
    MState { pdl: st.pdl.push(a1).push(a2), fail: false, ..st }
}

/// What a completed unification guarantees.
pub open spec fn unify_post(st0: MState, st1: MState, a1: Store, a2: Store) -> bool {
    &&& unify_frame(st0, st1)
    &&& (!st1.fail ==> st1.pdl.len() == 0)
    &&& (unify_trivial(st0, a1, a2) ==> !st1.fail && st1.heap == st0.heap)
    &&& (unify_clash(st0, a1, a2) ==> st1.fail)
}

/// The state after P advanced by one, as the executor does for the
/// non-jumping instructions.
pub open spec fn advanced(st: MState) -> MState {
    MState { p: (st.p + 1) as usize, ..st }
}

/// The one-instruction transition relation of the executor: executing
/// `ins` in state `st` can succeed with state `st2`.  Each arm is the
/// Ok-case of the corresponding operation's contract, with P advanced
/// for the non-jumping instructions.  The arms that unify are
/// relational, like `unify` itself.
#[verifier::opaque]
pub open spec fn instr_ok_to(st: MState, ins: InstrV, st2: MState) -> bool {
    match ins {
        InstrV::PutStructure(f, xi) => reg_writable(st, xi) && st.h <= usize::MAX - 2 && st2
            == advanced(put_structure_tgt(st, f, xi)),
        InstrV::GetStructure(f, xi) => store_valid(st, Store::Register(xi)) && ({
            let d = deref_store(st, Store::Register(xi));
            let c = store_cell_v(st, d).unwrap();
            match c {
                CellV::Ref(t) => st.h <= usize::MAX - 2 && st2 == advanced(
                    gs_write_tgt(st, f, t),
                ),
                CellV::Str(a) => a < st.heap.len() && match st.heap[a as int] {
                    CellV::Func(g) => if g == f {
                        st2 == advanced(MState { s: (a + 1) as usize, mode: Mode::Read, ..st })
                    } else {
                        st2 == advanced(MState { fail: true, ..st })
                    },
                    _ => false,
                },
                CellV::Func(_) => st2 == advanced(MState { fail: true, ..st }),
            }
        }),
        InstrV::SetVariable(xi) => reg_writable(st, xi) && st2 == advanced(
            set_variable_tgt(st, xi),
        ),
        InstrV::UnifyVariable(xi) => match st.mode {
            Mode::Read => reg_writable(st, xi) && st.s < st.heap.len() && st2 == advanced(
                uv_read_tgt(st, xi),
            ),
            Mode::Write => reg_writable(st, xi) && st.s < usize::MAX && st2 == advanced(
                uv_write_tgt(st, xi),
            ),
        },
        InstrV::SetValue(xi) => reg_cell(st, xi) is Some && st2 == advanced(
            set_value_tgt(st, reg_cell(st, xi).unwrap()),
        ),
        InstrV::UnifyValue(xi) => match st.mode {
            Mode::Read => ({
                let out = unify_run(
                    unify_init(st, Store::Register(xi), Store::HeapAddr(st.s)),
                    usize::MAX as nat,
                );
                st.s < usize::MAX && out.1 is None && st2 == advanced(
                    MState { s: (st.s + 1) as usize, ..out.0 },
                )
            }),
            Mode::Write => reg_cell(st, xi) is Some && st.s < usize::MAX && st2 == advanced(
                MState { s: (st.s + 1) as usize, ..set_value_tgt(st, reg_cell(st, xi).unwrap()) },
            ),
        },
        InstrV::PutVariable(xn, ai) => reg_writable(st, xn) && reg_writable(st, ai) && st2
            == advanced(put_variable_tgt(st, xn, ai)),
        InstrV::PutValue(xn, ai) => reg_cell(st, xn) is Some && reg_writable(st, ai) && st2
            == advanced(reg_written(st, ai, reg_cell(st, xn).unwrap())),
        InstrV::GetValue(xn, ai) => ({
            let out = unify_run(
                unify_init(st, Store::Register(xn), Store::Register(ai)),
                usize::MAX as nat,
            );
            out.1 is None && st2 == advanced(out.0)
        }),
        InstrV::GetVariable(xn, ai) => reg_cell(st, ai) is Some && reg_writable(st, xn) && st2
            == advanced(reg_written(st, xn, reg_cell(st, ai).unwrap())),
        InstrV::Allocate(n) => ({
            let ne = alloc_new_e(st);
            ne is Some && ne.unwrap() + 3 + n <= usize::MAX && st.p < usize::MAX && st2
                == alloc_tgt(st, n, ne.unwrap() as usize)
        }),
        InstrV::Deallocate => st.e + 1 < st.stack.len() && (match (
            st.stack[st.e as int],
            st.stack[st.e + 1],
        ) {
            (Some(FrameV::Code(pe)), Some(FrameV::Code(pc))) => st2 == (MState {
                p: pc,
                e: pe,
                ..st
            }),
            _ => false,
        }),
        InstrV::Call(ff) => ({
            let en = entry_lookup(st.entries, ff);
            en is Some && st.p < usize::MAX && st2 == (MState {
                cp: (st.p + 1) as usize,
                p: en.unwrap(),
                ..st
            })
        }),
        InstrV::Proceed => st2 == (MState { p: st.cp, ..st }),
    }
}

/// When executing `ins` in state `st` reports the structural error
/// `e`: each arm is the Err-case of the corresponding operation's
/// contract.  The arms that unify report exactly what the failing
/// work-list run reports.
#[verifier::opaque]
pub open spec fn instr_errs(st: MState, ins: InstrV, e: MachineError) -> bool {
    match ins {
        InstrV::PutStructure(f, xi) => (e == MachineError::RegisterUnderflow && !reg_writable(
            st,
            xi,
        )) || (e == MachineError::InvalidCell && reg_writable(st, xi) && st.h > usize::MAX - 2),
        InstrV::GetStructure(f, xi) => (e == MachineError::RegisterUnderflow && !store_valid(
            st,
            Store::Register(xi),
        )) || (e == MachineError::InvalidCell && store_valid(st, Store::Register(xi))
            && store_cell_v(st, deref_store(st, Store::Register(xi))).unwrap() is Ref && st.h
            > usize::MAX - 2),
        InstrV::SetVariable(xi) => e == MachineError::RegisterUnderflow && !reg_writable(st, xi),
        InstrV::UnifyVariable(xi) => (e == MachineError::RegisterUnderflow && !reg_writable(
            st,
            xi,
        )) || (e == MachineError::InvalidCell && reg_writable(st, xi) && ((st.mode is Read
            && st.s >= st.heap.len()) || (st.mode is Write && st.s == usize::MAX))),
        InstrV::SetValue(xi) => e == MachineError::RegisterUnderflow && reg_cell(st, xi) is None,
        InstrV::UnifyValue(xi) => match st.mode {
            Mode::Read => (e == MachineError::InvalidCell && st.s == usize::MAX) || (st.s
                < usize::MAX && unify_run(
                unify_init(st, Store::Register(xi), Store::HeapAddr(st.s)),
                usize::MAX as nat,
            ).1 == Some(e)),
            Mode::Write => (e == MachineError::RegisterUnderflow && reg_cell(st, xi) is None)
                || (e == MachineError::InvalidCell && reg_cell(st, xi) is Some && st.s
                == usize::MAX),
        },
        InstrV::PutVariable(xn, ai) => e == MachineError::RegisterUnderflow && !(reg_writable(
            st,
            xn,
        ) && reg_writable(st, ai)),
        InstrV::PutValue(xn, ai) => e == MachineError::RegisterUnderflow && (reg_cell(st, xn)
            is None || !reg_writable(st, ai)),
        InstrV::GetValue(xn, ai) => unify_run(
            unify_init(st, Store::Register(xn), Store::Register(ai)),
            usize::MAX as nat,
        ).1 == Some(e),
        InstrV::GetVariable(xn, ai) => e == MachineError::RegisterUnderflow && (reg_cell(st, ai)
            is None || !reg_writable(st, xn)),
        InstrV::Allocate(n) => e == MachineError::InvalidCell && (alloc_new_e(st) is None
            || alloc_new_e(st).unwrap() + 3 + n > usize::MAX || st.p == usize::MAX),
        InstrV::Deallocate => e == MachineError::InvalidCell && !(st.e + 1 < st.stack.len() && (
        st.stack[st.e as int] matches Some(FrameV::Code(_))) && (st.stack[st.e + 1] matches Some(
            FrameV::Code(_),
        ))),
        InstrV::Call(ff) => (e == MachineError::UnknownFunctor && entry_lookup(st.entries, ff)
            is None) || (e == MachineError::InvalidCell && entry_lookup(st.entries, ff) is Some
            && st.p == usize::MAX),
        InstrV::Proceed => false,
    }
}

/// Law: execution is deterministic (no I/O, clock or concurrency
/// affects it).  Every instruction has exactly one successor state:
/// the `unify`-based instructions are pinned by the exact work-list
/// run, all others by their target states.
pub proof fn lemma_step_deterministic(st: MState, ins: InstrV, a: MState, b: MState)
    requires
        instr_ok_to(st, ins, a),
        instr_ok_to(st, ins, b),
    ensures
        a == b,
{
    reveal(instr_ok_to);
}

/// The state an instruction leaves behind when it reports a
/// structural error: every operation leaves the machine unchanged,
/// except the `unify`-based instructions, whose failing work-list run
/// leaves exactly the state [`unify_run`] gives.
pub open spec fn instr_err_to(st: MState, ins: InstrV, st2: MState) -> bool {
    match ins {
        InstrV::GetValue(xn, ai) => st2 == unify_run(
            unify_init(st, Store::Register(xn), Store::Register(ai)),
            usize::MAX as nat,
        ).0,
        InstrV::UnifyValue(xi) => match st.mode {
            Mode::Read => if st.s == usize::MAX {
                st2 == st
            } else {
                st2 == unify_run(
                    unify_init(st, Store::Register(xi), Store::HeapAddr(st.s)),
                    usize::MAX as nat,
                ).0
            },
            Mode::Write => st2 == st,
        },
        _ => st2 == st,
    }
}

/// A state the run loop stops in: control has left the code area or
/// the fail flag is raised (no instruction executes once fail is set).
pub open spec fn run_terminal(st: MState) -> bool {
    st.p >= st.code.len() || st.fail
}

/// One step of the executor from a non-terminal state: the
/// instruction at P succeeds and transforms the state.
pub open spec fn step_ok_to(st: MState, st2: MState) -> bool {
    st.p < st.code.len() && instr_ok_to(st, st.code[st.p as int], st2)
}

/// Exactly `n` successful executor steps lead from `st` to `st2`.
pub open spec fn runs_n(st: MState, st2: MState, n: nat) -> bool
    decreases n,
{
    if n == 0 {
        st2 == st
    } else {
        !run_terminal(st) && exists|mid: MState|
            #[trigger] step_ok_to(st, mid) && runs_n(mid, st2, (n - 1) as nat)
    }
}

/// Some number of successful executor steps leads from `st` to `st2`.
pub open spec fn run_reaches(st: MState, st2: MState) -> bool {
    exists|n: nat| runs_n(st, st2, n)
}

/// A run appends one more successful step at its end.
pub proof fn lemma_runs_snoc(a: MState, b: MState, c: MState, n: nat)
    requires
        runs_n(a, b, n),
        !run_terminal(b),
        step_ok_to(b, c),
    ensures
        runs_n(a, c, n + 1),
    decreases n,
{
    if n == 0 {
        assert(step_ok_to(a, c) && runs_n(c, c, 0));
    } else {
        let mid = choose|mid: MState| #[trigger] step_ok_to(a, mid) && runs_n(mid, b, (n - 1) as nat);
        lemma_runs_snoc(mid, b, c, (n - 1) as nat);
        assert(step_ok_to(a, mid) && runs_n(mid, c, n));
    }
}

/// What a run of the executor from code address `entry` guarantees:
/// the continuation is set past the code area, and then either the
/// final state is reached by successful steps and is terminal, or a
/// structural error was met on some reachable state (or the step
/// budget of `usize::MAX` instructions ran out).
pub open spec fn run_post(
    st0: MState,
    entry: usize,
    stf: MState,
    r: Result<(), MachineError>,
) -> bool {
    let st_in = MState { p: entry, cp: st0.code.len() as usize, ..st0 };
    match r {
        Ok(_) => run_reaches(st_in, stf) && run_terminal(stf),
        Err(e) => (exists|mid: MState|
            #[trigger] run_reaches(st_in, mid) && !run_terminal(mid) && instr_errs(
                mid,
                mid.code[mid.p as int],
                e,
            ) && instr_err_to(mid, mid.code[mid.p as int], stf)) || (e
            == MachineError::InvalidCell && runs_n(st_in, stf, usize::MAX as nat)
            && !run_terminal(stf)),
    }
}

/// Law: on a well-formed machine — and every operation of the machine
/// both requires and re-establishes well-formedness — every `Str` cell
/// on the heap points at a `Func` cell.
pub proof fn lemma_str_points_to_functor(st: MState, a: int)
    requires
        st.wf(),
        0 <= a < st.heap.len(),
        st.heap[a] is Str,
    ensures
        st.heap[a]->Str_0 < st.heap.len(),
        st.heap[st.heap[a]->Str_0 as int] is Func,
{
    assert(heap_cell_ok(st.heap, a));
}

/// Law: the same for a `Str` cell held in a register.
pub proof fn lemma_register_str_points_to_functor(st: MState, r: Register)
    requires
        st.wf(),
        reg_cell(st, r) matches Some(c) && c is Str,
    ensures
        reg_cell(st, r).unwrap()->Str_0 < st.heap.len(),
        st.heap[reg_cell(st, r).unwrap()->Str_0 as int] is Func,
{
    lemma_reg_cell_ok(st, r);
}

/// Law: on a well-formed machine a `Ref` cell's target is a valid heap
/// index, at or below the cell's own address, and so itself holds a
/// valid cell.  This descending-chain rule is also why `deref`
/// terminates.
pub proof fn lemma_ref_target_valid(st: MState, a: int)
    requires
        st.wf(),
        0 <= a < st.heap.len(),
        st.heap[a] is Ref,
    ensures
        st.heap[a]->Ref_0 <= a,
        st.heap[a]->Ref_0 < st.heap.len(),
{
    assert(heap_cell_ok(st.heap, a));
}

/// On a well-formed heap the dereference of an in-range address is
/// in range.
proof fn lemma_deref_heap_in_range(heap: Seq<CellV>, a: usize)
    requires
        heap_ok(heap),
        a < heap.len(),
    ensures
        deref_heap(heap, a) < heap.len(),
    decreases a,
{
    assert(heap_cell_ok(heap, a as int));
    match heap[a as int] {
        CellV::Ref(v) => {
            if v != a {
                lemma_deref_heap_in_range(heap, v);
            }
        },
        _ => {},
    }
}

/// The dereference of a readable store address is itself readable.
proof fn lemma_deref_valid(st: MState, s: Store)
    requires
        st.wf(),
        store_valid(st, s),
    ensures
        store_valid(st, deref_store(st, s)),
{
    match s {
        Store::HeapAddr(a) => {
            lemma_deref_heap_in_range(st.heap, a);
        },
        Store::Register(r) => {
            lemma_reg_cell_ok(st, r);
            match reg_cell(st, r) {
                Some(CellV::Ref(v)) => {
                    lemma_deref_heap_in_range(st.heap, v);
                },
                _ => {},
            }
        },
    }
}

/// Two work lists that agree up to the order within each two-entry
/// pair.
pub open spec fn paired_swap(p1: Seq<Store>, p2: Seq<Store>) -> bool {
    &&& p1.len() == p2.len()
    &&& p1.len() % 2 == 0
    &&& forall|q: int|
        0 <= q && 2 * q + 1 < p1.len() ==> ((#[trigger] p1[2 * q] == p2[2 * q] && p1[2 * q + 1]
            == p2[2 * q + 1]) || (p1[2 * q] == p2[2 * q + 1] && p1[2 * q + 1] == p2[2 * q]))
}

/// Law: the order within each pair of the work list does not matter.
/// Two runs whose work lists agree up to that order err together, and
/// on success produce the same machine state up to the same pairing
/// of leftover work — in particular the same heap and fail flag.
/// With [`lemma_bind_symmetric`] this is the order-freedom of
/// unification.
#[verifier::rlimit(100)]
#[verifier::spinoff_prover]
pub proof fn lemma_unify_run_swap(st1: MState, st2: MState, fuel: nat)
    requires
        st2 == (MState { pdl: st2.pdl, ..st1 }),
        paired_swap(st1.pdl, st2.pdl),
    ensures
        ({
            let o1 = unify_run(st1, fuel);
            let o2 = unify_run(st2, fuel);
            &&& (o1.1 is Some <==> o2.1 is Some)
            &&& (o1.1 is None ==> o2.0 == (MState { pdl: o2.0.pdl, ..o1.0 }) && paired_swap(
                o1.0.pdl,
                o2.0.pdl,
            ))
        }),
    decreases fuel,
{
    if st1.pdl.len() == 0 || st1.fail || fuel == 0 {
    } else {
        let n = st1.pdl.len();
        let s1a = st1.pdl[n - 1];
        let s2a = st1.pdl[n - 2];
        let s1b = st2.pdl[n - 1];
        let s2b = st2.pdl[n - 2];
        assert((s1a == s1b && s2a == s2b) || (s1a == s2b && s2a == s1b)) by {
            assert(2 * ((n - 2) / 2) == n - 2);
        }
        let r1 = st1.pdl.drop_last().drop_last();
        let r2 = st2.pdl.drop_last().drop_last();
        assert(paired_swap(r1, r2)) by {
            assert(r1.len() == n - 2 && r2.len() == n - 2);
            assert forall|q: int| 0 <= q && 2 * q + 1 < r1.len() implies ((#[trigger] r1[2 * q]
                == r2[2 * q] && r1[2 * q + 1] == r2[2 * q + 1]) || (r1[2 * q] == r2[2 * q + 1]
                && r1[2 * q + 1] == r2[2 * q])) by {
                assert(r1[2 * q] == st1.pdl[2 * q] && r1[2 * q + 1] == st1.pdl[2 * q + 1]);
                assert(r2[2 * q] == st2.pdl[2 * q] && r2[2 * q + 1] == st2.pdl[2 * q + 1]);
            }
        }
        let stb1 = MState { pdl: r1, ..st1 };
        let stb2 = MState { pdl: r2, ..st2 };
        assert(st1.pdl.drop_last().drop_last() == r1);
        assert(stb2 == (MState { pdl: stb2.pdl, ..stb1 }));
        lemma_deref_same(stb1, stb2, s1a);
        lemma_deref_same(stb1, stb2, s2a);
        lemma_deref_same(stb1, stb2, s1b);
        lemma_deref_same(stb1, stb2, s2b);
        if s1a == s1b && s2a == s2b {
            if !store_valid(stb1, s1a) || !store_valid(stb1, s2a) {
            } else {
                let d1 = deref_store(stb1, s1a);
                let d2 = deref_store(stb1, s2a);
                if d1 == d2 {
                    lemma_unify_run_swap(stb1, stb2, (fuel - 1) as nat);
                } else {
                    let c1 = store_cell_v(stb1, d1).unwrap();
                    let c2 = store_cell_v(stb1, d2).unwrap();
                    lemma_deref_same(stb1, stb2, d1);
                    lemma_deref_same(stb1, stb2, d2);
                    if c1 is Ref || c2 is Ref {
                        if !(c1 is Func || c2 is Func) {
                            let nx1 = bind_tgt(stb1, c1, c2);
                            let nx2 = bind_tgt(stb2, c1, c2);
                            assert(nx2 == (MState { pdl: nx2.pdl, ..nx1 }));
                            lemma_unify_run_swap(nx1, nx2, (fuel - 1) as nat);
                        }
                    } else if c1 is Func || c2 is Func {
                    } else if cell_functor(stb1, c1) is None || cell_functor(stb1, c2)
                        is None {
                    } else {
                        let f1 = cell_functor(stb1, c1).unwrap();
                        let f2 = cell_functor(stb1, c2).unwrap();
                        if f1 == f2 {
                            let t1 = c1->Str_0;
                            let t2 = c2->Str_0;
                            if !(f1.arity > 0 && (t1 + f1.arity > usize::MAX || t2 + f1.arity
                                > usize::MAX)) {
                                let nx1 = MState {
                                    pdl: r1 + unify_arg_pairs(t1, t2, f1.arity),
                                    ..stb1
                                };
                                let nx2 = MState {
                                    pdl: r2 + unify_arg_pairs(t1, t2, f1.arity),
                                    ..stb2
                                };
                                assert(paired_swap(nx1.pdl, nx2.pdl)) by {
                                    lemma_paired_swap_append(
                                        r1,
                                        r2,
                                        unify_arg_pairs(t1, t2, f1.arity),
                                        unify_arg_pairs(t1, t2, f1.arity),
                                    );
                                }
                                lemma_unify_run_swap(nx1, nx2, (fuel - 1) as nat);
                            }
                        } else {
                            lemma_unify_run_swap(
                                MState { fail: true, ..stb1 },
                                MState { fail: true, ..stb2 },
                                (fuel - 1) as nat,
                            );
                        }
                    }
                }
            }
        } else {
            if !store_valid(stb1, s1a) || !store_valid(stb1, s2a) {
            } else {
                let d1 = deref_store(stb1, s1a);
                let d2 = deref_store(stb1, s2a);
                if d1 == d2 {
                    lemma_unify_run_swap(stb1, stb2, (fuel - 1) as nat);
                } else {
                    let c1 = store_cell_v(stb1, d1).unwrap();
                    let c2 = store_cell_v(stb1, d2).unwrap();
                    lemma_deref_same(stb1, stb2, d1);
                    lemma_deref_same(stb1, stb2, d2);
                    if c1 is Ref || c2 is Ref {
                        if !(c1 is Func || c2 is Func) {
                            lemma_bind_symmetric(stb1, c1, c2);
                            let nx1 = bind_tgt(stb1, c1, c2);
                            let nx2 = bind_tgt(stb2, c2, c1);
                            assert(nx2 == (MState { pdl: nx2.pdl, ..nx1 }));
                            lemma_unify_run_swap(nx1, nx2, (fuel - 1) as nat);
                        }
                    } else if c1 is Func || c2 is Func {
                    } else if cell_functor(stb1, c1) is None || cell_functor(stb1, c2)
                        is None {
                    } else {
                        let f1 = cell_functor(stb1, c1).unwrap();
                        let f2 = cell_functor(stb1, c2).unwrap();
                        if f1 == f2 {
                            let t1 = c1->Str_0;
                            let t2 = c2->Str_0;
                            if !(f1.arity > 0 && (t1 + f1.arity > usize::MAX || t2 + f1.arity
                                > usize::MAX)) {
                                let nx1 = MState {
                                    pdl: r1 + unify_arg_pairs(t1, t2, f1.arity),
                                    ..stb1
                                };
                                let nx2 = MState {
                                    pdl: r2 + unify_arg_pairs(t2, t1, f1.arity),
                                    ..stb2
                                };
                                assert(paired_swap(nx1.pdl, nx2.pdl)) by {
                                    lemma_paired_swap_append(
                                        r1,
                                        r2,
                                        unify_arg_pairs(t1, t2, f1.arity),
                                        unify_arg_pairs(t2, t1, f1.arity),
                                    );
                                }
                                lemma_unify_run_swap(nx1, nx2, (fuel - 1) as nat);
                            }
                        } else {
                            lemma_unify_run_swap(
                                MState { fail: true, ..stb1 },
                                MState { fail: true, ..stb2 },
                                (fuel - 1) as nat,
                            );
                        }
                    }
                }
            }
        }
    }
}

/// Appending pairwise-agreeing pair runs keeps the pairing.
proof fn lemma_paired_swap_append(r1: Seq<Store>, r2: Seq<Store>, e1: Seq<Store>, e2: Seq<Store>)
    requires
        paired_swap(r1, r2),
        paired_swap(e1, e2),
    ensures
        paired_swap(r1 + e1, r2 + e2),
{
    let p1 = r1 + e1;
    let p2 = r2 + e2;
    assert forall|q: int| 0 <= q && 2 * q + 1 < p1.len() implies ((#[trigger] p1[2 * q] == p2[2
        * q] && p1[2 * q + 1] == p2[2 * q + 1]) || (p1[2 * q] == p2[2 * q + 1] && p1[2 * q + 1]
        == p2[2 * q])) by {
        if 2 * q + 1 < r1.len() {
            assert(2 * q < r1.len());
        } else {
            let qq = q - r1.len() / 2;
            assert(2 * q == r1.len() + 2 * qq && 2 * q + 1 == r1.len() + 2 * qq + 1);
            assert(p1[2 * q] == e1[2 * qq] && p1[2 * q + 1] == e1[2 * qq + 1]);
            assert(p2[2 * q] == e2[2 * qq] && p2[2 * q + 1] == e2[2 * qq + 1]);
        }
    }
}

/// Law: unification is order-free.  Starting from an empty work
/// list, `unify(A, B)` and `unify(B, A)` err together, and on success
/// leave the same heap and the same fail flag.
pub proof fn lemma_unify_symmetric(st0: MState, a1: Store, a2: Store)
    requires
        st0.pdl.len() == 0,
    ensures
        ({
            let o1 = unify_run(unify_init(st0, a1, a2), usize::MAX as nat);
            let o2 = unify_run(unify_init(st0, a2, a1), usize::MAX as nat);
            &&& (o1.1 is Some <==> o2.1 is Some)
            &&& (o1.1 is None ==> o2.0.heap == o1.0.heap && o2.0.fail == o1.0.fail)
        }),
{
    let i1 = unify_init(st0, a1, a2);
    let i2 = unify_init(st0, a2, a1);
    assert(paired_swap(i1.pdl, i2.pdl)) by {
        assert(i1.pdl.len() == 2);
        assert(i1.pdl[0] == a1 && i1.pdl[1] == a2);
        assert(i2.pdl[0] == a2 && i2.pdl[1] == a1);
    }
    lemma_unify_run_swap(i1, i2, usize::MAX as nat);
}

/// On two addresses that dereference together, the work list runs to
/// a success without touching the heap.
proof fn lemma_unify_run_trivial(st0: MState, a1: Store, a2: Store, fuel: nat)
    requires
        st0.wf(),
        unify_trivial(st0, a1, a2),
        fuel >= 2,
    ensures
        ({
            let out = unify_run(unify_init(st0, a1, a2), fuel);
            out.1 is None && !out.0.fail && out.0.heap == st0.heap
        }),
{
    let init = unify_init(st0, a1, a2);
    let sta = MState { pdl: init.pdl.drop_last(), ..init };
    let stb = MState { pdl: sta.pdl.drop_last(), ..sta };
    assert(init.pdl.last() == a2);
    assert(init.pdl.drop_last() =~= st0.pdl.push(a1));
    assert(sta.pdl.last() == a1);
    assert(sta.pdl.drop_last() =~= st0.pdl);
    lemma_deref_same(st0, stb, a1);
    lemma_deref_same(st0, stb, a2);
    assert(unify_run(stb, (fuel - 1) as nat) == (stb, None::<MachineError>));
    assert(unify_run(init, fuel) == (stb, None::<MachineError>));
}

/// On two addresses that dereference to distinct structures with
/// different functors, the work list runs to a state with the fail
/// flag raised, without touching the heap.
proof fn lemma_unify_run_clash(st0: MState, a1: Store, a2: Store, fuel: nat)
    requires
        st0.wf(),
        unify_clash(st0, a1, a2),
        fuel >= 2,
    ensures
        ({
            let out = unify_run(unify_init(st0, a1, a2), fuel);
            out.1 is None && out.0.fail && out.0.heap == st0.heap
        }),
{
    let init = unify_init(st0, a1, a2);
    let sta = MState { pdl: init.pdl.drop_last(), ..init };
    let stb = MState { pdl: sta.pdl.drop_last(), ..sta };
    assert(init.pdl.last() == a2);
    assert(init.pdl.drop_last() =~= st0.pdl.push(a1));
    assert(sta.pdl.last() == a1);
    assert(sta.pdl.drop_last() =~= st0.pdl);
    lemma_deref_same(st0, stb, a1);
    lemma_deref_same(st0, stb, a2);
    let d1 = deref_store(st0, a2);
    let d2 = deref_store(st0, a1);
    lemma_deref_valid(st0, a1);
    lemma_deref_valid(st0, a2);
    lemma_deref_same(st0, stb, d1);
    lemma_deref_same(st0, stb, d2);
    lemma_store_cell_ok(st0, d1);
    lemma_store_cell_ok(st0, d2);
    let failed = MState { fail: true, ..stb };
    assert(unify_run(failed, (fuel - 1) as nat) == (failed, None::<MachineError>));
    assert(unify_run(init, fuel) == (failed, None::<MachineError>));
}

/// A run that ends in a structural error did not start on a pinned
/// trivial-success or clash input.
proof fn lemma_not_special_on_err(st0: MState, a1: Store, a2: Store)
    requires
        st0.wf(),
        unify_run(unify_init(st0, a1, a2), usize::MAX as nat).1 is Some,
    ensures
        !unify_trivial(st0, a1, a2),
        !unify_clash(st0, a1, a2),
{
    if unify_trivial(st0, a1, a2) {
        lemma_unify_run_trivial(st0, a1, a2, usize::MAX as nat);
    }
    if unify_clash(st0, a1, a2) {
        lemma_unify_run_clash(st0, a1, a2, usize::MAX as nat);
    }
}

/// Dereferencing depends only on the heap, the registers, the stack
/// and E; two states that agree there dereference alike.
proof fn lemma_deref_same(st0: MState, st1: MState, s: Store)
    requires
        st1.heap == st0.heap,
        st1.x == st0.x,
        st1.stack == st0.stack,
        st1.e == st0.e,
    ensures
        store_valid(st1, s) == store_valid(st0, s),
        store_cell_v(st1, s) == store_cell_v(st0, s),
        deref_store(st1, s) == deref_store(st0, s),
        derefed(st1, s) == derefed(st0, s),
{
    match s {
        Store::HeapAddr(a) => {},
        Store::Register(r) => {
            assert(reg_cell(st1, r) == reg_cell(st0, r));
        },
    }
}

/// The argument order of `unify` does not matter to the two pinned
/// special cases: two addresses that dereference together succeed in
/// either order, and a functor clash fails in either order.  The
/// full order-freedom of unification is [`lemma_unify_symmetric`].
pub proof fn lemma_unify_conditions_symmetric(st: MState, a1: Store, a2: Store)
    ensures
        unify_trivial(st, a1, a2) == unify_trivial(st, a2, a1),
        unify_clash(st, a1, a2) == unify_clash(st, a2, a1),
{
}

/// A cell held by a register is well-formed on a well-formed machine.
proof fn lemma_reg_cell_ok(st: MState, r: Register)
    requires
        st.wf(),
        reg_cell(st, r) is Some,
    ensures
        rcell_ok(st.heap, reg_cell(st, r).unwrap()),
{
    match r {
        Register::X(i) => {
            assert(match st.x[i - 1] {
                Some(c) => rcell_ok(st.heap, c),
                None => true,
            });
        },
        Register::Y(i) => {
            assert(match st.stack[st.e + 2 + i] {
                Some(FrameV::Cell(c)) => rcell_ok(st.heap, c),
                _ => true,
            });
        },
    }
}

/// A cell read through a valid store address is well-formed on a
/// well-formed machine.
proof fn lemma_store_cell_ok(st: MState, s: Store)
    requires
        st.wf(),
        store_valid(st, s),
    ensures
        rcell_ok(st.heap, store_cell_v(st, s).unwrap()),
{
    match s {
        Store::HeapAddr(a) => {
            assert(heap_cell_ok(st.heap, a as int));
        },
        Store::Register(r) => {
            lemma_reg_cell_ok(st, r);
        },
    }
}

/// Extending the heap at the tail with well-formed cells preserves the
/// machine invariant, as long as nothing else changes.
proof fn lemma_extend_wf(st: MState, st2: MState)
    requires
        st.wf(),
        st2.x == st.x,
        st2.stack == st.stack,
        st2.h == st2.heap.len(),
        st2.heap.len() >= st.heap.len(),
        forall|a: int| 0 <= a < st.heap.len() ==> st2.heap[a] == st.heap[a],
        forall|a: int| st.heap.len() <= a < st2.heap.len() ==> #[trigger] heap_cell_ok(st2.heap, a),
    ensures
        st2.wf(),
{
    assert forall|a: int| 0 <= a < st2.heap.len() implies #[trigger] heap_cell_ok(st2.heap, a) by {
        if a < st.heap.len() {
            assert(heap_cell_ok(st.heap, a));
        }
    }
    assert forall|i: int| 0 <= i < st2.x.len() implies match #[trigger] st2.x[i] {
        Some(c) => rcell_ok(st2.heap, c),
        None => true,
    } by {
        assert(match st.x[i] {
            Some(c) => rcell_ok(st.heap, c),
            None => true,
        });
    }
    assert forall|i: int| 0 <= i < st2.stack.len() implies match #[trigger] st2.stack[i] {
        Some(FrameV::Cell(c)) => rcell_ok(st2.heap, c),
        _ => true,
    } by {
        assert(match st.stack[i] {
            Some(FrameV::Cell(c)) => rcell_ok(st.heap, c),
            _ => true,
        });
    }
}

/// Overwriting a `Ref` cell in place with a well-formed cell that keeps
/// the descending-chain rule preserves the machine invariant.
proof fn lemma_update_ref_wf(st: MState, st2: MState, t: int, c: CellV)
    requires
        st.wf(),
        st2.x == st.x,
        st2.stack == st.stack,
        st2.h == st.h,
        0 <= t < st.heap.len(),
        st.heap[t] is Ref,
        st2.heap == st.heap.update(t, c),
        rcell_ok(st.heap, c),
        c is Ref ==> c->Ref_0 <= t,
    ensures
        st2.wf(),
{
    assert(st2.heap.len() == st.heap.len());
    assert forall|a: int| 0 <= a < st2.heap.len() implies #[trigger] heap_cell_ok(st2.heap, a) by {
        assert(heap_cell_ok(st.heap, a));
        if a != t {
            match st.heap[a] {
                CellV::Str(v) => {
                    assert(st.heap[v as int] is Func);
                    assert(v != t);
                },
                _ => {},
            }
        } else {
            match c {
                CellV::Str(v) => {
                    assert(st.heap[v as int] is Func);
                    assert(v != t);
                },
                _ => {},
            }
        }
    }
    assert forall|i: int| 0 <= i < st2.x.len() implies match #[trigger] st2.x[i] {
        Some(cc) => rcell_ok(st2.heap, cc),
        None => true,
    } by {
        match st.x[i] {
            Some(cc) => {
                assert(rcell_ok(st.heap, cc));
                match cc {
                    CellV::Str(v) => {
                        assert(st.heap[v as int] is Func);
                        assert(v != t);
                    },
                    _ => {},
                }
            },
            None => {},
        }
    }
    assert forall|i: int| 0 <= i < st2.stack.len() implies match #[trigger] st2.stack[i] {
        Some(FrameV::Cell(cc)) => rcell_ok(st2.heap, cc),
        _ => true,
    } by {
        match st.stack[i] {
            Some(FrameV::Cell(cc)) => {
                assert(rcell_ok(st.heap, cc));
                match cc {
                    CellV::Str(v) => {
                        assert(st.heap[v as int] is Func);
                        assert(v != t);
                    },
                    _ => {},
                }
            },
            _ => {},
        }
    }
}

/// Grow a register file with empty slots until it has at least `n`
/// entries.
fn grow_opts(x: &mut Vec<Option<Cell>>, n: usize)
    ensures
        old(x)@.len() >= n ==> final(x)@ == old(x)@,
        old(x)@.len() < n ==> final(x)@ == old(x)@ + Seq::new(
            (n - old(x)@.len()) as nat,
            |k: int| None::<Cell>,
        ),
{
    while x.len() < n
        invariant
            x@.len() >= old(x)@.len(),
            x@.len() <= n || x@.len() == old(x)@.len(),
            x@.subrange(0, old(x)@.len() as int) == old(x)@,
            forall|j: int| old(x)@.len() <= j < x@.len() ==> x@[j] is None,
        decreases n - x.len(),
    {
        x.push(None);
        proof {
            assert(x@.subrange(0, old(x)@.len() as int) =~= old(x)@);
        }
    }
    proof {
        if old(x)@.len() < n {
            assert(final(x)@ =~= old(x)@ + Seq::new((n - old(x)@.len()) as nat, |k: int| None::<Cell>));
        } else {
            assert(final(x)@ =~= old(x)@);
        }
    }
}

impl Machine {
    /// Whether register `r` can be written in the current state.
    fn can_write_register(&self, r: Register) -> (b: bool)
        ensures
            b == reg_writable(self.st(), r),
    {
        match r {
            Register::X(i) => i >= 1,
            Register::Y(i) => {
                let e = self.registers.e;
                let len = self.stack.len();
                if i >= 1 && e < len && len - e > 2 && i < len - e - 2 {
                    match &self.stack[e + 2] {
                        Some(Frame::Code(n)) => i <= *n,
                        _ => false,
                    }
                } else {
                    false
                }
            },
        }
    }

    /// Write a cell to a temporary register, growing the file on demand.
    fn insert_x(&mut self, xi: usize, cell: Cell)
        requires
            old(self).wf(),
            xi >= 1,
            rcell_ok(old(self).st().heap, cell@),
        ensures
            final(self).wf(),
            final(self).st() == reg_written(old(self).st(), Register::X(xi), cell@),
    {
        let ghost st0 = self.st();
        let ghost cv = cell@;
        grow_opts(&mut self.registers.x, xi);
        self.registers.x[xi - 1] = Some(cell);
        proof {
            assert(self.st() =~= reg_written(st0, Register::X(xi), cv));
            let st2 = self.st();
            assert forall|i: int| 0 <= i < st2.x.len() implies match #[trigger] st2.x[i] {
                Some(c) => rcell_ok(st2.heap, c),
                None => true,
            } by {
                if i != xi - 1 && i < st0.x.len() {
                    assert(st2.x[i] == st0.x[i]);
                    assert(match st0.x[i] {
                        Some(c) => rcell_ok(st0.heap, c),
                        None => true,
                    });
                }
            }
        }
    }

    /// Write a cell to a permanent register of the current frame.
    fn insert_y(&mut self, yi: usize, cell: Cell)
        requires
            old(self).wf(),
            reg_writable(old(self).st(), Register::Y(yi)),
            rcell_ok(old(self).st().heap, cell@),
        ensures
            final(self).wf(),
            final(self).st() == reg_written(old(self).st(), Register::Y(yi), cell@),
    {
        let ghost st0 = self.st();
        let ghost cv = cell@;
        let e = self.registers.e;
        let len = self.stack.len();
        proof {
            assert(st0.stack.len() == self.stack@.len());
            assert(st0.e + 2 + yi < len);
        }
        self.stack[e + 2 + yi] = Some(Frame::Cell(cell));
        proof {
            assert(self.st() =~= reg_written(st0, Register::Y(yi), cv));
            let st2 = self.st();
            assert forall|i: int| 0 <= i < st2.stack.len() implies match #[trigger] st2.stack[i] {
                Some(FrameV::Cell(c)) => rcell_ok(st2.heap, c),
                _ => true,
            } by {
                if i != st0.e + 2 + yi {
                    assert(st2.stack[i] == st0.stack[i]);
                    assert(match st0.stack[i] {
                        Some(FrameV::Cell(c)) => rcell_ok(st0.heap, c),
                        _ => true,
                    });
                }
            }
        }
    }

    /// Write a cell to a register.
    fn insert_register(&mut self, r: Register, cell: Cell)
        requires
            old(self).wf(),
            reg_writable(old(self).st(), r),
            rcell_ok(old(self).st().heap, cell@),
        ensures
            final(self).wf(),
            final(self).st() == reg_written(old(self).st(), r, cell@),
    {
        match r {
            Register::X(xi) => self.insert_x(xi, cell),
            Register::Y(yi) => self.insert_y(yi, cell),
        }
    }
}

/// The machine state `PutStructure(f, xi)` produces: the cells
/// `Str(H+1)` and `Func(f)` appended to the heap, `Str(H+1)` stored in
/// `xi`, and `H` advanced by 2.
pub open spec fn put_structure_tgt(st: MState, f: FunctorV, xi: Register) -> MState {
    let st1 = MState {
        heap: st.heap + seq![CellV::Str((st.h + 1) as usize), CellV::Func(f)],
        h: (st.h + 2) as usize,
        ..st
    };
    reg_written(st1, xi, CellV::Str((st.h + 1) as usize))
}

/// The machine state `SetVariable(xi)` produces: a fresh unbound
/// `Ref(H)` appended to the heap and stored in `xi`, `H` advanced by 1.
pub open spec fn set_variable_tgt(st: MState, xi: Register) -> MState {
    let st1 = MState {
        heap: st.heap + seq![CellV::Ref(st.h)],
        h: (st.h + 1) as usize,
        ..st
    };
    reg_written(st1, xi, CellV::Ref(st.h))
}

/// The machine state `SetValue(xi)` produces: a copy of `xi`'s cell
/// appended to the heap, `H` advanced by 1.
pub open spec fn set_value_tgt(st: MState, c: CellV) -> MState {
    MState { heap: st.heap + seq![c], h: (st.h + 1) as usize, ..st }
}

/// The machine state `PutVariable(xn, ai)` produces: a fresh unbound
/// `Ref(H)` appended to the heap and stored in both registers.
pub open spec fn put_variable_tgt(st: MState, xn: Register, ai: Register) -> MState {
    let st1 = MState {
        heap: st.heap + seq![CellV::Ref(st.h)],
        h: (st.h + 1) as usize,
        ..st
    };
    reg_written(reg_written(st1, xn, CellV::Ref(st.h)), ai, CellV::Ref(st.h))
}

impl Machine {
    /// `PutStructure(f, xi)`: build a new structure shell at the top of
    /// the heap and store a pointer to it in `xi`.
    pub fn put_structure(&mut self, f: Functor, xi: Register) -> (r: Result<(), MachineError>)
        requires
            old(self).wf(),
        ensures
            final(self).wf(),
            ({
                let st0 = old(self).st();
                match r {
                    Ok(_) => reg_writable(st0, xi) && st0.h <= usize::MAX - 2 && final(self).st()
                        == put_structure_tgt(st0, f@, xi),
                    Err(e) => final(self).st() == st0 && ((e == MachineError::RegisterUnderflow
                        && !reg_writable(st0, xi)) || (e == MachineError::InvalidCell
                        && reg_writable(st0, xi) && st0.h > usize::MAX - 2)),
                }
            }),
    {
        let ghost st0 = self.st();
        let ghost fv = f@;
        if !self.can_write_register(xi) {
            return Err(MachineError::RegisterUnderflow);
        }
        let h = self.registers.h;
        if h > usize::MAX - 2 {
            return Err(MachineError::InvalidCell);
        }
        self.heap.push(Cell::Str(h + 1));
        self.heap.push(Cell::Func(f));
        self.registers.h = h + 2;
        proof {
            let st1 = MState {
                heap: st0.heap + seq![CellV::Str((st0.h + 1) as usize), CellV::Func(fv)],
                h: (st0.h + 2) as usize,
                ..st0
            };
            assert(self.st() =~= st1);
            assert forall|a: int| st0.heap.len() <= a < st1.heap.len() implies #[trigger]
                heap_cell_ok(st1.heap, a) by {
                assert(st1.heap[st0.heap.len() as int] == CellV::Str((st0.h + 1) as usize));
                assert(st1.heap[st0.heap.len() as int + 1] == CellV::Func(fv));
            }
            lemma_extend_wf(st0, st1);
        }
        self.insert_register(xi, Cell::Str(h + 1));
        proof {
            assert(self.st() == put_structure_tgt(st0, fv, xi));
        }
        Ok(())
    }

    /// `SetVariable(xi)`: push a fresh unbound variable cell and store
    /// it in `xi`.
    pub fn set_variable(&mut self, xi: Register) -> (r: Result<(), MachineError>)
        requires
            old(self).wf(),
        ensures
            final(self).wf(),
            ({
                let st0 = old(self).st();
                match r {
                    Ok(_) => reg_writable(st0, xi) && final(self).st() == set_variable_tgt(st0, xi),
                    Err(e) => final(self).st() == st0 && e == MachineError::RegisterUnderflow
                        && !reg_writable(st0, xi),
                }
            }),
    {
        let ghost st0 = self.st();
        if !self.can_write_register(xi) {
            return Err(MachineError::RegisterUnderflow);
        }
        let h = self.registers.h;
        self.heap.push(Cell::Ref(h));
        proof {
            assert(self.heap.len() == st0.h + 1);
        }
        self.registers.h = h + 1;
        proof {
            let st1 = MState {
                heap: st0.heap + seq![CellV::Ref(st0.h)],
                h: (st0.h + 1) as usize,
                ..st0
            };
            assert(self.st() =~= st1);
            assert forall|a: int| st0.heap.len() <= a < st1.heap.len() implies #[trigger]
                heap_cell_ok(st1.heap, a) by {
                assert(st1.heap[st0.heap.len() as int] == CellV::Ref(st0.h));
            }
            lemma_extend_wf(st0, st1);
        }
        self.insert_register(xi, Cell::Ref(h));
        proof {
            assert(self.st() == set_variable_tgt(st0, xi));
        }
        Ok(())
    }

    /// `SetValue(xi)`: push a copy of `xi`'s cell onto the heap.
    pub fn set_value(&mut self, xi: Register) -> (r: Result<(), MachineError>)
        requires
            old(self).wf(),
        ensures
            final(self).wf(),
            ({
                let st0 = old(self).st();
                match r {
                    Ok(_) => reg_cell(st0, xi) is Some && final(self).st() == set_value_tgt(
                        st0,
                        reg_cell(st0, xi)->Some_0,
                    ),
                    Err(e) => final(self).st() == st0 && e == MachineError::RegisterUnderflow
                        && reg_cell(st0, xi) is None,
                }
            }),
    {
        let ghost st0 = self.st();
        let cell = match self.get_register(xi) {
            Some(c) => c.clone(),
            None => {
                return Err(MachineError::RegisterUnderflow);
            },
        };
        let h = self.registers.h;
        self.heap.push(cell);
        proof {
            assert(self.heap.len() == st0.h + 1);
        }
        self.registers.h = h + 1;
        proof {
            let cv = reg_cell(st0, xi)->Some_0;
            let st1 = set_value_tgt(st0, cv);
            assert(self.st() =~= st1);
            assert forall|a: int| st0.heap.len() <= a < st1.heap.len() implies #[trigger]
                heap_cell_ok(st1.heap, a) by {
                assert(st1.heap[st0.heap.len() as int] == cv);
                assert(rcell_ok(st0.heap, cv));
            }
            lemma_extend_wf(st0, st1);
        }
        Ok(())
    }

    /// `PutVariable(xn, ai)`: push a fresh unbound variable cell and
    /// store it in both `xn` and `ai`.
    pub fn put_variable(&mut self, xn: Register, ai: Register) -> (r: Result<(), MachineError>)
        requires
            old(self).wf(),
        ensures
            final(self).wf(),
            ({
                let st0 = old(self).st();
                match r {
                    Ok(_) => reg_writable(st0, xn) && reg_writable(st0, ai) && final(self).st()
                        == put_variable_tgt(st0, xn, ai),
                    Err(e) => final(self).st() == st0 && e == MachineError::RegisterUnderflow && !(
                    reg_writable(st0, xn) && reg_writable(st0, ai)),
                }
            }),
    {
        let ghost st0 = self.st();
        if !self.can_write_register(xn) || !self.can_write_register(ai) {
            return Err(MachineError::RegisterUnderflow);
        }
        let h = self.registers.h;
        self.heap.push(Cell::Ref(h));
        proof {
            assert(self.heap.len() == st0.h + 1);
        }
        self.registers.h = h + 1;
        proof {
            let st1 = MState {
                heap: st0.heap + seq![CellV::Ref(st0.h)],
                h: (st0.h + 1) as usize,
                ..st0
            };
            assert(self.st() =~= st1);
            assert forall|a: int| st0.heap.len() <= a < st1.heap.len() implies #[trigger]
                heap_cell_ok(st1.heap, a) by {
                assert(st1.heap[st0.heap.len() as int] == CellV::Ref(st0.h));
            }
            lemma_extend_wf(st0, st1);
        }
        self.insert_register(xn, Cell::Ref(h));
        self.insert_register(ai, Cell::Ref(h));
        proof {
            assert(self.st() == put_variable_tgt(st0, xn, ai));
        }
        Ok(())
    }

    /// `PutValue(xn, ai)`: copy `xn`'s cell into `ai`.
    pub fn put_value(&mut self, xn: Register, ai: Register) -> (r: Result<(), MachineError>)
        requires
            old(self).wf(),
        ensures
            final(self).wf(),
            ({
                let st0 = old(self).st();
                match r {
                    Ok(_) => reg_cell(st0, xn) is Some && reg_writable(st0, ai) && final(self).st()
                        == reg_written(st0, ai, reg_cell(st0, xn)->Some_0),
                    Err(e) => final(self).st() == st0 && e == MachineError::RegisterUnderflow && (
                    reg_cell(st0, xn) is None || !reg_writable(st0, ai)),
                }
            }),
    {
        let cell = match self.get_register(xn) {
            Some(c) => c.clone(),
            None => {
                return Err(MachineError::RegisterUnderflow);
            },
        };
        if !self.can_write_register(ai) {
            return Err(MachineError::RegisterUnderflow);
        }
        self.insert_register(ai, cell);
        Ok(())
    }

    /// The entry address recorded for a functor, if any.
    pub fn get_code_address(&self, fact: &Functor) -> (r: Option<usize>)
        ensures
            r == entry_lookup(self.st().entries, fact@),
    {
        let ghost es = self.st().entries;
        proof {
            assert(es.take(es.len() as int) =~= es);
        }
        let mut i = self.code.entries.len();
        while i > 0
            invariant
                i <= self.code.entries.len(),
                es == self.st().entries,
                entry_lookup(es, fact@) == entry_lookup(es.take(i as int), fact@),
            decreases i,
        {
            i = i - 1;
            proof {
                assert(es.take(i + 1).last() == es[i as int]);
                assert(es.take(i + 1).drop_last() =~= es.take(i as int));
            }
            let pair = &self.code.entries[i];
            if pair.0 == *fact {
                return Some(pair.1);
            }
        }
        proof {
            assert(es.take(0) =~= Seq::empty());
        }
        None
    }

    /// Append one instruction to the code area.
    pub fn push_instruction(&mut self, instruction: Instruction)
        ensures
            final(self).st() == (MState {
                code: old(self).st().code.push(instruction@),
                ..old(self).st()
            }),
            final(self).wf() == old(self).wf(),
    {
        let ghost st0 = self.st();
        self.code.area.push(instruction);
        proof {
            assert(self.st() =~= MState { code: st0.code.push(instruction@), ..st0 });
        }
    }

    /// Record `fact`'s entry address as the current end of the code
    /// area, then append the instructions.  This is how compiled code
    /// is loaded into the machine.
    pub fn push_instructions(&mut self, fact: &Functor, instructions: &[Instruction])
        ensures
            final(self).st() == (MState {
                code: old(self).st().code + instructions@.map_values(|i: Instruction| i@),
                entries: old(self).st().entries.push(
                    (fact@, old(self).st().code.len() as usize),
                ),
                ..old(self).st()
            }),
            final(self).wf() == old(self).wf(),
    {
        let ghost st0 = self.st();
        let a = self.code.area.len();
        self.code.entries.push((fact.clone(), a));
        proof {
            assert(instructions@.take(0).map_values(|i: Instruction| i@)
                =~= Seq::<InstrV>::empty());
            assert(self.st() =~= (MState {
                code: st0.code + instructions@.take(0).map_values(|i: Instruction| i@),
                entries: st0.entries.push((fact@, st0.code.len() as usize)),
                ..st0
            }));
        }
        let mut k: usize = 0;
        while k < instructions.len()
            invariant
                k <= instructions@.len(),
                self.st() == (MState {
                    code: st0.code + instructions@.take(k as int).map_values(
                        |i: Instruction| i@,
                    ),
                    entries: st0.entries.push((fact@, st0.code.len() as usize)),
                    ..st0
                }),
            decreases instructions@.len() - k,
        {
            let instr = instructions[k].clone();
            self.code.area.push(instr);
            k = k + 1;
            proof {
                let prev = instructions@.take(k - 1);
                let x = instructions@[k - 1]@;
                assert(instructions@.take(k as int) =~= prev.push(instructions@[k - 1]));
                assert(instructions@.take(k as int).map_values(|i: Instruction| i@)
                    =~= prev.map_values(|i: Instruction| i@).push(x));
                assert(self.st().code =~= (st0.code + prev.map_values(
                    |i: Instruction| i@,
                )).push(x));
                assert(st0.code + instructions@.take(k as int).map_values(|i: Instruction| i@)
                    =~= (st0.code + prev.map_values(|i: Instruction| i@)).push(x));
                assert(self.st() =~= (MState {
                    code: st0.code + instructions@.take(k as int).map_values(
                        |i: Instruction| i@,
                    ),
                    entries: st0.entries.push((fact@, st0.code.len() as usize)),
                    ..st0
                }));
            }
        }
        proof {
            assert(instructions@.take(instructions@.len() as int) =~= instructions@);
            assert(final(self).st() =~= MState {
                code: st0.code + instructions@.map_values(|i: Instruction| i@),
                entries: st0.entries.push((fact@, st0.code.len() as usize)),
                ..st0
            });
        }
    }

    /// `Call(f)`: save the return point in CP and jump to `f`'s entry.
    pub fn call(&mut self, f: &Functor) -> (r: Result<(), MachineError>)
        ensures
            ({
                let st0 = old(self).st();
                let entry = entry_lookup(st0.entries, f@);
                match r {
                    Ok(_) => entry is Some && st0.p < usize::MAX && final(self).st() == MState {
                        cp: (st0.p + 1) as usize,
                        p: entry.unwrap(),
                        ..st0
                    },
                    Err(e) => final(self).st() == st0 && ((e == MachineError::UnknownFunctor
                        && entry is None) || (e == MachineError::InvalidCell && entry is Some
                        && st0.p == usize::MAX)),
                }
            }),
            final(self).wf() == old(self).wf(),
    {
        let ghost st0 = self.st();
        let a = match self.get_code_address(f) {
            Some(a) => a,
            None => {
                return Err(MachineError::UnknownFunctor);
            },
        };
        let p = self.registers.p;
        if p == usize::MAX {
            return Err(MachineError::InvalidCell);
        }
        self.registers.cp = p + 1;
        self.registers.p = a;
        proof {
            assert(self.st() =~= MState {
                cp: (st0.p + 1) as usize,
                p: entry_lookup(st0.entries, f@).unwrap(),
                ..st0
            });
        }
        Ok(())
    }

    /// `Proceed`: return to the continuation.
    pub fn proceed(&mut self)
        ensures
            final(self).st() == (MState { p: old(self).st().cp, ..old(self).st() }),
            final(self).wf() == old(self).wf(),
    {
        let ghost st0 = self.st();
        self.registers.p = self.registers.cp;
        proof {
            assert(self.st() =~= MState { p: st0.cp, ..st0 });
        }
    }

    /// The cell a store address denotes, if the address is in range.
    pub fn get_store_cell(&self, address: Store) -> (r: Option<&Cell>)
        ensures
            opt_ref_cell_view(r) == store_cell_v(self.st(), address),
    {
        match address {
            Store::HeapAddr(addr) => if addr < self.heap.len() {
                Some(&self.heap[addr])
            } else {
                None
            },
            Store::Register(r) => self.get_register(r),
        }
    }

    /// The functor a cell denotes: directly for a `Func` cell, through
    /// the heap for a `Str` cell.
    pub fn get_functor<'a>(&'a self, cell: &'a Cell) -> (r: Result<&'a Functor, MachineError>)
        ensures
            match r {
                Ok(f) => cell_functor(self.st(), cell@) == Some(f@),
                Err(e) => e == MachineError::InvalidCell && cell_functor(self.st(), cell@)
                    is None,
            },
    {
        match cell {
            Cell::Str(addr) => {
                if *addr < self.heap.len() {
                    match &self.heap[*addr] {
                        Cell::Func(f) => Ok(f),
                        _ => Err(MachineError::InvalidCell),
                    }
                } else {
                    Err(MachineError::InvalidCell)
                }
            },
            Cell::Func(f) => Ok(f),
            Cell::Ref(_) => Err(MachineError::InvalidCell),
        }
    }

    /// `deref(a)`: follow `Ref` chains from store address `a` to the
    /// first address holding an unbound `Ref`, a `Str` or a `Func`.
    ///
    /// The loop provably terminates: on a well-formed heap every bound
    /// `Ref` points strictly below itself, so the followed address
    /// decreases on every hop.
    pub fn deref(&self, address: Store) -> (r: Result<Store, MachineError>)
        requires
            self.wf(),
        ensures
            match r {
                Ok(d) => store_valid(self.st(), address) && d == deref_store(
                    self.st(),
                    address,
                ) && derefed(self.st(), d),
                Err(e) => !store_valid(self.st(), address) && ((e
                    == MachineError::InvalidCell && address is HeapAddr) || (e
                    == MachineError::RegisterUnderflow && address is Register)),
            },
    {
        let ghost st0 = self.st();
        let start: usize = match address {
            Store::HeapAddr(a) => {
                if a >= self.heap.len() {
                    return Err(MachineError::InvalidCell);
                }
                a
            },
            Store::Register(r) => {
                match self.get_register(r) {
                    Some(c) => match c {
                        Cell::Ref(v) => {
                            proof {
                                lemma_reg_cell_ok(st0, r);
                            }
                            *v
                        },
                        _ => {
                            return Ok(address);
                        },
                    },
                    None => {
                        return Err(MachineError::RegisterUnderflow);
                    },
                }
            },
        };
        proof {
            assert(deref_store(st0, address) == Store::HeapAddr(deref_heap(st0.heap, start)));
        }
        let mut cur: usize = start;
        loop
            invariant
                self.wf(),
                st0 == self.st(),
                heap_ok(st0.heap),
                store_valid(st0, address),
                start < st0.heap.len(),
                cur < st0.heap.len(),
                deref_store(st0, address) == Store::HeapAddr(deref_heap(st0.heap, start)),
                deref_heap(st0.heap, start) == deref_heap(st0.heap, cur),
            decreases cur,
        {
            proof {
                assert(heap_cell_ok(st0.heap, cur as int));
            }
            match &self.heap[cur] {
                Cell::Ref(v) => {
                    if *v == cur {
                        proof {
                            assert(st0.heap[cur as int] == CellV::Ref(cur));
                            assert(deref_heap(st0.heap, cur) == cur);
                        }
                        return Ok(Store::HeapAddr(cur));
                    } else {
                        proof {
                            assert(st0.heap[cur as int] == CellV::Ref(*v));
                            assert(deref_heap(st0.heap, cur) == deref_heap(st0.heap, *v));
                        }
                        cur = *v;
                    }
                },
                _ => {
                    proof {
                        assert(!(st0.heap[cur as int] is Ref));
                        assert(deref_heap(st0.heap, cur) == cur);
                    }
                    return Ok(Store::HeapAddr(cur));
                },
            }
        }
    }

    /// `bind(a1, a2)`: make the unbound side point at the other.  When
    /// both sides are unbound variables the younger (higher) address is
    /// bound to the older one, which keeps reference chains short and
    /// descending.
    pub fn bind(&mut self, a1: Store, a2: Store) -> (r: Result<(), MachineError>)
        requires
            old(self).wf(),
            store_valid(old(self).st(), a1),
            store_valid(old(self).st(), a2),
            derefed(old(self).st(), a1),
            derefed(old(self).st(), a2),
            store_cell_v(old(self).st(), a1).unwrap() is Ref || store_cell_v(
                old(self).st(),
                a2,
            ).unwrap() is Ref,
        ensures
            final(self).wf(),
            ({
                let st0 = old(self).st();
                let c1 = store_cell_v(st0, a1).unwrap();
                let c2 = store_cell_v(st0, a2).unwrap();
                match r {
                    Ok(_) => !(c1 is Func) && !(c2 is Func) && final(self).st() == bind_tgt(
                        st0,
                        c1,
                        c2,
                    ),
                    Err(e) => e == MachineError::InvalidCell && (c1 is Func || c2 is Func)
                        && final(self).st() == st0,
                }
            }),
    {
        let ghost st0 = self.st();
        let c1 = match self.get_store_cell(a1) {
            Some(c) => c.clone(),
            None => {
                proof {
                    assert(false);
                }
                return Err(MachineError::InvalidCell);
            },
        };
        let c2 = match self.get_store_cell(a2) {
            Some(c) => c.clone(),
            None => {
                proof {
                    assert(false);
                }
                return Err(MachineError::InvalidCell);
            },
        };
        let t1 = match c1.address() {
            Some(t) => t,
            None => {
                return Err(MachineError::InvalidCell);
            },
        };
        let t2 = match c2.address() {
            Some(t) => t,
            None => {
                return Err(MachineError::InvalidCell);
            },
        };
        proof {
            lemma_store_cell_ok(st0, a1);
            lemma_store_cell_ok(st0, a2);
        }
        if c1.is_ref() && (!c2.is_ref() || t2 < t1) {
            self.heap[t1] = c2;
            proof {
                let cv1 = store_cell_v(st0, a1).unwrap();
                let cv2 = store_cell_v(st0, a2).unwrap();
                assert(self.st() =~= bind_tgt(st0, cv1, cv2));
                lemma_update_ref_wf(st0, self.st(), t1 as int, cv2);
            }
        } else {
            self.heap[t2] = c1;
            proof {
                let cv1 = store_cell_v(st0, a1).unwrap();
                let cv2 = store_cell_v(st0, a2).unwrap();
                assert(self.st() =~= bind_tgt(st0, cv1, cv2));
                lemma_update_ref_wf(st0, self.st(), t2 as int, cv1);
            }
        }
        Ok(())
    }

    /// `GetVariable(xn, ai)`: copy `ai`'s cell into `xn`.
    pub fn get_variable(&mut self, xn: Register, ai: Register) -> (r: Result<(), MachineError>)
        requires
            old(self).wf(),
        ensures
            final(self).wf(),
            ({
                let st0 = old(self).st();
                match r {
                    Ok(_) => reg_cell(st0, ai) is Some && reg_writable(st0, xn) && final(self).st()
                        == reg_written(st0, xn, reg_cell(st0, ai)->Some_0),
                    Err(e) => final(self).st() == st0 && e == MachineError::RegisterUnderflow && (
                    reg_cell(st0, ai) is None || !reg_writable(st0, xn)),
                }
            }),
    {
        let cell = match self.get_register(ai) {
            Some(c) => c.clone(),
            None => {
                return Err(MachineError::RegisterUnderflow);
            },
        };
        if !self.can_write_register(xn) {
            return Err(MachineError::RegisterUnderflow);
        }
        self.insert_register(xn, cell);
        Ok(())
    }

    /// `Allocate(n)`: push an environment frame of size `n` holding
    /// the previous E, the saved CP and `n`, with `n` cleared
    /// permanent slots.  P self-advances.
    #[verifier::loop_isolation(false)]
    pub fn allocate(&mut self, n: usize) -> (r: Result<(), MachineError>)
        requires
            old(self).wf(),
        ensures
            final(self).wf(),
            ({
                let st0 = old(self).st();
                let ne = alloc_new_e(st0);
                match r {
                    Ok(_) => ne is Some && ne.unwrap() + 3 + n <= usize::MAX && st0.p
                        < usize::MAX && final(self).st() == alloc_tgt(
                        st0,
                        n,
                        ne.unwrap() as usize,
                    ),
                    Err(e) => final(self).st() == st0 && e == MachineError::InvalidCell && (
                    ne is None || ne.unwrap() + 3 + n > usize::MAX || st0.p == usize::MAX),
                }
            }),
    {
        let ghost st0 = self.st();
        let e = self.registers.e;
        let new_e: usize = if e == 0 {
            1
        } else {
            let len = self.stack.len();
            if !(e < len && len - e > 2) {
                return Err(MachineError::InvalidCell);
            }
            let ncur: usize = match &self.stack[e + 2] {
                Some(Frame::Code(n0)) => *n0,
                _ => {
                    return Err(MachineError::InvalidCell);
                },
            };
            if ncur > usize::MAX - 3 || e > usize::MAX - 3 - ncur {
                return Err(MachineError::InvalidCell);
            }
            e + ncur + 3
        };
        if n > usize::MAX - 3 || new_e > usize::MAX - 3 - n {
            return Err(MachineError::InvalidCell);
        }
        let need = new_e + 3 + n;
        if self.registers.p == usize::MAX {
            return Err(MachineError::InvalidCell);
        }
        while self.stack.len() < need
            invariant
                self.st().stack.len() >= st0.stack.len(),
                self.st().stack.len() <= need || self.st().stack.len() == st0.stack.len(),
                self.st() == (MState { stack: self.st().stack, ..st0 }),
                forall|i: int| 0 <= i < st0.stack.len() ==> self.st().stack[i] == st0.stack[i],
                forall|i: int|
                    st0.stack.len() <= i < self.st().stack.len() ==> self.st().stack[i] is None,
            decreases need - self.stack.len(),
        {
            let ghost stg = self.st();
            self.stack.push(None);
            proof {
                assert(self.st() =~= (MState {
                    stack: stg.stack.push(None),
                    ..stg
                }));
            }
        }
        let ghost grown = self.st().stack;
        self.stack[new_e] = Some(Frame::Code(e));
        self.stack[new_e + 1] = Some(Frame::Code(self.registers.cp));
        self.stack[new_e + 2] = Some(Frame::Code(n));
        proof {
            let tgt0 = alloc_stack_partial(st0, n, new_e, 0);
            assert(grown.len() == tgt0.len());
            assert forall|i: int| 0 <= i < tgt0.len() implies self.st().stack[i] == tgt0[i] by {
                if i == new_e || i == new_e + 1 || i == new_e + 2 {
                } else if i < st0.stack.len() {
                    assert(grown[i] == st0.stack[i]);
                } else {
                    assert(grown[i] is None);
                }
            }
            assert(self.st().stack =~= tgt0);
            assert(self.st() == (MState { stack: tgt0, ..st0 }));
        }
        let mut j: usize = 0;
        while j < n
            invariant
                j <= n,
                self.st() == (MState {
                    stack: alloc_stack_partial(st0, n, new_e, j as int),
                    ..st0
                }),
            decreases n - j,
        {
            proof {
                assert(self.st().stack.len() >= new_e + 3 + n);
            }
            self.stack[new_e + 3 + j] = None;
            j = j + 1;
            proof {
                let prev = alloc_stack_partial(st0, n, new_e, j - 1);
                let tgt = alloc_stack_partial(st0, n, new_e, j as int);
                assert forall|i: int| 0 <= i < tgt.len() implies self.st().stack[i] == tgt[i] by {
                    if i != new_e + 3 + (j - 1) {
                        assert(self.st().stack[i] == prev[i]);
                    }
                }
                assert(self.st().stack =~= tgt);
            }
        }
        self.registers.e = new_e;
        self.registers.p = self.registers.p + 1;
        proof {
            assert(self.st() =~= alloc_tgt(st0, n, new_e));
            let st2 = self.st();
            assert forall|i: int| 0 <= i < st2.stack.len() implies match #[trigger] st2.stack[i] {
                Some(FrameV::Cell(c)) => rcell_ok(st2.heap, c),
                _ => true,
            } by {
                if 0 <= i < st0.stack.len() && st2.stack[i] == st0.stack[i] {
                    assert(match st0.stack[i] {
                        Some(FrameV::Cell(c)) => rcell_ok(st0.heap, c),
                        _ => true,
                    });
                }
            }
        }
        Ok(())
    }

    /// `Deallocate`: restore P from the saved CP and E from the saved
    /// previous E of the current frame.
    pub fn deallocate(&mut self) -> (r: Result<(), MachineError>)
        requires
            old(self).wf(),
        ensures
            final(self).wf(),
            ({
                let st0 = old(self).st();
                match r {
                    Ok(_) => st0.e + 1 < st0.stack.len() && match (
                        st0.stack[st0.e as int],
                        st0.stack[st0.e + 1],
                    ) {
                        (Some(FrameV::Code(pe)), Some(FrameV::Code(pc))) => final(self).st()
                            == (MState { p: pc, e: pe, ..st0 }),
                        _ => false,
                    },
                    Err(e) => final(self).st() == st0 && e == MachineError::InvalidCell && !(
                    st0.e + 1 < st0.stack.len() && (st0.stack[st0.e as int] matches Some(
                        FrameV::Code(_),
                    )) && (st0.stack[st0.e + 1] matches Some(FrameV::Code(_)))),
                }
            }),
    {
        let ghost st0 = self.st();
        let e = self.registers.e;
        let len = self.stack.len();
        if !(e < len && len - e > 1) {
            return Err(MachineError::InvalidCell);
        }
        let new_p: usize = match &self.stack[e + 1] {
            Some(Frame::Code(a)) => *a,
            _ => {
                return Err(MachineError::InvalidCell);
            },
        };
        let new_e: usize = match &self.stack[e] {
            Some(Frame::Code(a)) => *a,
            _ => {
                return Err(MachineError::InvalidCell);
            },
        };
        self.registers.p = new_p;
        self.registers.e = new_e;
        proof {
            assert(self.st() =~= (MState { p: new_p, e: new_e, ..st0 }));
        }
        Ok(())
    }

    /// Run compiled code from `fact`'s entry address until control
    /// falls past the end of the code area, the fail flag is raised or
    /// a structural error occurs.  `Call` jumps to the called functor's
    /// entry; `Proceed` returns to CP; the run ends when a top-level
    /// `Proceed` returns to the sentinel continuation.
    ///
    /// The step budget bounds runaway programs (the machine has no
    /// occurs check, so a program can loop); exhausting it is reported
    /// as a structural error.
    pub fn execute_instructions(&mut self, fact: &Functor) -> (r: Result<(), MachineError>)
        requires
            old(self).wf(),
        ensures
            final(self).wf(),
            final(self).st().code == old(self).st().code,
            final(self).st().entries == old(self).st().entries,
            entry_lookup(old(self).st().entries, fact@) is None ==> r == Err::<
                (),
                MachineError,
            >(MachineError::UnknownFunctor) && final(self).st() == old(self).st(),
            entry_lookup(old(self).st().entries, fact@) matches Some(en) ==> run_post(
                old(self).st(),
                en,
                final(self).st(),
                r,
            ),
    {
        let entry = match self.get_code_address(fact) {
            Some(a) => a,
            None => {
                return Err(MachineError::UnknownFunctor);
            },
        };
        self.run_from(entry)
    }

    /// Append instructions to the code area without recording an entry
    /// address: how a query is loaded, so that its trailing `Call`
    /// reaches the program's clause rather than the query itself.
    pub fn append_code(&mut self, instructions: &[Instruction])
        ensures
            final(self).st() == (MState {
                code: old(self).st().code + instructions@.map_values(|i: Instruction| i@),
                ..old(self).st()
            }),
            final(self).wf() == old(self).wf(),
    {
        let ghost st0 = self.st();
        proof {
            assert(instructions@.take(0).map_values(|i: Instruction| i@)
                =~= Seq::<InstrV>::empty());
            assert(self.st() =~= (MState {
                code: st0.code + instructions@.take(0).map_values(|i: Instruction| i@),
                ..st0
            }));
        }
        let mut k: usize = 0;
        while k < instructions.len()
            invariant
                k <= instructions@.len(),
                self.st() == (MState {
                    code: st0.code + instructions@.take(k as int).map_values(
                        |i: Instruction| i@,
                    ),
                    ..st0
                }),
            decreases instructions@.len() - k,
        {
            let instr = instructions[k].clone();
            self.code.area.push(instr);
            k = k + 1;
            proof {
                let prev = instructions@.take(k - 1);
                let x = instructions@[k - 1]@;
                assert(instructions@.take(k as int) =~= prev.push(instructions@[k - 1]));
                assert(instructions@.take(k as int).map_values(|i: Instruction| i@)
                    =~= prev.map_values(|i: Instruction| i@).push(x));
                assert(self.st().code =~= (st0.code + prev.map_values(
                    |i: Instruction| i@,
                )).push(x));
                assert(st0.code + instructions@.take(k as int).map_values(|i: Instruction| i@)
                    =~= (st0.code + prev.map_values(|i: Instruction| i@)).push(x));
                assert(self.st() =~= (MState {
                    code: st0.code + instructions@.take(k as int).map_values(
                        |i: Instruction| i@,
                    ),
                    ..st0
                }));
            }
        }
        proof {
            assert(instructions@.take(instructions@.len() as int) =~= instructions@);
            assert(final(self).st() =~= (MState {
                code: st0.code + instructions@.map_values(|i: Instruction| i@),
                ..st0
            }));
        }
    }

    /// Whether an instruction belongs to the first dispatch half of
    /// the executor.
    pub open spec fn instr_group_a(ins: InstrV) -> bool {
        ||| ins is PutStructure
        ||| ins is GetStructure
        ||| ins is SetVariable
        ||| ins is UnifyVariable
        ||| ins is SetValue
        ||| ins is UnifyValue
        ||| ins is PutVariable
    }

    /// Execute the single instruction at P: the one-instruction
    /// transition of the machine, advancing P for the non-jumping
    /// instructions.
    fn step_once(&mut self) -> (r: Result<(), MachineError>)
        requires
            old(self).wf(),
            !run_terminal(old(self).st()),
        ensures
            final(self).wf(),
            final(self).st().code == old(self).st().code,
            final(self).st().entries == old(self).st().entries,
            match r {
                Ok(_) => step_ok_to(old(self).st(), final(self).st()),
                Err(e) => instr_errs(
                    old(self).st(),
                    old(self).st().code[old(self).st().p as int],
                    e,
                ) && instr_err_to(
                    old(self).st(),
                    old(self).st().code[old(self).st().p as int],
                    final(self).st(),
                ),
            },
    {
        let ghost cur = self.st();
        let p = self.registers.p;
        proof {
            assert(cur.p < cur.code.len());
        }
        let in_a = matches!(
            &self.code.area[p],
            Instruction::PutStructure(..) | Instruction::GetStructure(..)
            | Instruction::SetVariable(..) | Instruction::UnifyVariable(..)
            | Instruction::SetValue(..) | Instruction::UnifyValue(..)
            | Instruction::PutVariable(..)
        );
        if in_a {
            self.step_once_a()
        } else {
            self.step_once_b()
        }
    }

    /// The first dispatch half of the executor.
    #[verifier::rlimit(100)]
    #[verifier::spinoff_prover]
    fn step_once_a(&mut self) -> (r: Result<(), MachineError>)
        requires
            old(self).wf(),
            !run_terminal(old(self).st()),
            Self::instr_group_a(old(self).st().code[old(self).st().p as int]),
        ensures
            final(self).wf(),
            final(self).st().code == old(self).st().code,
            final(self).st().entries == old(self).st().entries,
            match r {
                Ok(_) => step_ok_to(old(self).st(), final(self).st()),
                Err(e) => instr_errs(
                    old(self).st(),
                    old(self).st().code[old(self).st().p as int],
                    e,
                ) && instr_err_to(
                    old(self).st(),
                    old(self).st().code[old(self).st().p as int],
                    final(self).st(),
                ),
            },
    {
        let ghost cur = self.st();
        let p = self.registers.p;
        let n = self.code.area.len();
        proof {
            assert(cur.p < cur.code.len());
            assert(p < n);
        }
        let instr = self.code.area[p].clone();
        let ghost insv = cur.code[cur.p as int];
        match &instr {
            Instruction::PutStructure(f, x) => {
                match self.put_structure(f.clone(), *x) {
                    Ok(_) => {},
                    Err(e) => {
                        proof {
                            reveal(instr_errs);
                            assert(instr_errs(cur, insv, e));
                        }
                        return Err(e);
                    },
                }
                self.registers.p = p + 1;
                proof {
                    assert(self.st() =~= advanced(put_structure_tgt(cur, insv->PutStructure_0, insv->PutStructure_1)));
                    reveal(instr_ok_to);
                    assert(step_ok_to(cur, self.st()));
                }
            },
            Instruction::GetStructure(f, x) => {
                match self.get_structure(f.clone(), *x) {
                    Ok(_) => {},
                    Err(e) => {
                        proof {
                            reveal(instr_errs);
                            assert(instr_errs(cur, insv, e));
                        }
                        return Err(e);
                    },
                }
                let ghost after = self.st();
                self.registers.p = p + 1;
                proof {
                    assert(self.st() =~= advanced(after));
                    reveal(instr_ok_to);
                    assert(step_ok_to(cur, self.st()));
                }
            },
            Instruction::SetVariable(x) => {
                match self.set_variable(*x) {
                    Ok(_) => {},
                    Err(e) => {
                        proof {
                            reveal(instr_errs);
                            assert(instr_errs(cur, insv, e));
                        }
                        return Err(e);
                    },
                }
                self.registers.p = p + 1;
                proof {
                    assert(self.st() =~= advanced(set_variable_tgt(cur, insv->SetVariable_0)));
                    reveal(instr_ok_to);
                    assert(step_ok_to(cur, self.st()));
                }
            },
            Instruction::UnifyVariable(x) => {
                match self.unify_variable(*x) {
                    Ok(_) => {},
                    Err(e) => {
                        proof {
                            reveal(instr_errs);
                            assert(instr_errs(cur, insv, e));
                        }
                        return Err(e);
                    },
                }
                let ghost after = self.st();
                self.registers.p = p + 1;
                proof {
                    assert(self.st() =~= advanced(after));
                    reveal(instr_ok_to);
                    assert(step_ok_to(cur, self.st()));
                }
            },
            Instruction::SetValue(x) => {
                match self.set_value(*x) {
                    Ok(_) => {},
                    Err(e) => {
                        proof {
                            reveal(instr_errs);
                            assert(instr_errs(cur, insv, e));
                        }
                        return Err(e);
                    },
                }
                self.registers.p = p + 1;
                proof {
                    assert(self.st() =~= advanced(set_value_tgt(cur, reg_cell(cur, insv->SetValue_0).unwrap())));
                    reveal(instr_ok_to);
                    assert(step_ok_to(cur, self.st()));
                }
            },
            Instruction::UnifyValue(x) => {
                match self.unify_value(*x) {
                    Ok(_) => {},
                    Err(e) => {
                        proof {
                            reveal(instr_errs);
                            assert(instr_errs(cur, insv, e));
                        }
                        return Err(e);
                    },
                }
                let ghost after = self.st();
                self.registers.p = p + 1;
                proof {
                    assert(self.st() =~= advanced(after));
                    if cur.mode is Read {
                        assert((MState { p: cur.p, s: cur.s, ..self.st() }) =~= (MState {
                            s: cur.s,
                            ..after
                        }));
                    } else {
                        assert(self.st() =~= advanced(MState {
                            s: (cur.s + 1) as usize,
                            ..set_value_tgt(cur, reg_cell(cur, insv->UnifyValue_0).unwrap())
                        }));
                    }
                    reveal(instr_ok_to);
                    assert(step_ok_to(cur, self.st()));
                }
            },
            Instruction::PutVariable(x, a) => {
                match self.put_variable(*x, *a) {
                    Ok(_) => {},
                    Err(e) => {
                        proof {
                            reveal(instr_errs);
                            assert(instr_errs(cur, insv, e));
                        }
                        return Err(e);
                    },
                }
                self.registers.p = p + 1;
                proof {
                    assert(self.st() =~= advanced(put_variable_tgt(cur, insv->PutVariable_0, insv->PutVariable_1)));
                    reveal(instr_ok_to);
                    assert(step_ok_to(cur, self.st()));
                }
            },
            _ => {
                proof {
                    assert(false);
                }
                return Err(MachineError::InvalidCell);
            },
        }
        Ok(())
    }

    /// The second dispatch half of the executor.
    #[verifier::rlimit(100)]
    #[verifier::spinoff_prover]
    fn step_once_b(&mut self) -> (r: Result<(), MachineError>)
        requires
            old(self).wf(),
            !run_terminal(old(self).st()),
            !Self::instr_group_a(old(self).st().code[old(self).st().p as int]),
        ensures
            final(self).wf(),
            final(self).st().code == old(self).st().code,
            final(self).st().entries == old(self).st().entries,
            match r {
                Ok(_) => step_ok_to(old(self).st(), final(self).st()),
                Err(e) => instr_errs(
                    old(self).st(),
                    old(self).st().code[old(self).st().p as int],
                    e,
                ) && instr_err_to(
                    old(self).st(),
                    old(self).st().code[old(self).st().p as int],
                    final(self).st(),
                ),
            },
    {
        let ghost cur = self.st();
        let p = self.registers.p;
        let n = self.code.area.len();
        proof {
            assert(cur.p < cur.code.len());
            assert(p < n);
        }
        let instr = self.code.area[p].clone();
        let ghost insv = cur.code[cur.p as int];
        match &instr {
            Instruction::PutValue(x, a) => {
                match self.put_value(*x, *a) {
                    Ok(_) => {},
                    Err(e) => {
                        proof {
                            reveal(instr_errs);
                            assert(instr_errs(cur, insv, e));
                        }
                        return Err(e);
                    },
                }
                self.registers.p = p + 1;
                proof {
                    assert(self.st() =~= advanced(reg_written(cur, insv->PutValue_1, reg_cell(cur, insv->PutValue_0).unwrap())));
                    reveal(instr_ok_to);
                    assert(step_ok_to(cur, self.st()));
                }
            },
            Instruction::GetValue(x, a) => {
                match self.get_value(*x, *a) {
                    Ok(_) => {},
                    Err(e) => {
                        proof {
                            reveal(instr_errs);
                            assert(instr_errs(cur, insv, e));
                        }
                        return Err(e);
                    },
                }
                let ghost after = self.st();
                self.registers.p = p + 1;
                proof {
                    assert(self.st() =~= advanced(after));
                    assert((MState { p: cur.p, ..self.st() }) =~= after);
                    reveal(instr_ok_to);
                    assert(step_ok_to(cur, self.st()));
                }
            },
            Instruction::GetVariable(x, a) => {
                match self.get_variable(*x, *a) {
                    Ok(_) => {},
                    Err(e) => {
                        proof {
                            reveal(instr_errs);
                            assert(instr_errs(cur, insv, e));
                        }
                        return Err(e);
                    },
                }
                self.registers.p = p + 1;
                proof {
                    assert(self.st() =~= advanced(reg_written(cur, insv->GetVariable_0, reg_cell(cur, insv->GetVariable_1).unwrap())));
                    reveal(instr_ok_to);
                    assert(step_ok_to(cur, self.st()));
                }
            },
            Instruction::Allocate(nn) => {
                match self.allocate(*nn) {
                    Ok(_) => {},
                    Err(e) => {
                        proof {
                            reveal(instr_errs);
                            assert(instr_errs(cur, insv, e));
                        }
                        return Err(e);
                    },
                }
                proof {
                    reveal(instr_ok_to);
                    assert(step_ok_to(cur, self.st()));
                }
            },
            Instruction::Deallocate => {
                match self.deallocate() {
                    Ok(_) => {},
                    Err(e) => {
                        proof {
                            reveal(instr_errs);
                            assert(instr_errs(cur, insv, e));
                        }
                        return Err(e);
                    },
                }
                proof {
                    reveal(instr_ok_to);
                    assert(step_ok_to(cur, self.st()));
                }
            },
            Instruction::Call(f) => {
                match self.call(f) {
                    Ok(_) => {},
                    Err(e) => {
                        proof {
                            reveal(instr_errs);
                            assert(instr_errs(cur, insv, e));
                        }
                        return Err(e);
                    },
                }
                proof {
                    reveal(instr_ok_to);
                    assert(step_ok_to(cur, self.st()));
                }
            },
            Instruction::Proceed => {
                self.proceed();
                proof {
                    reveal(instr_ok_to);
                    assert(step_ok_to(cur, self.st()));
                }
            },
            _ => {
                proof {
                    assert(false);
                }
                return Err(MachineError::InvalidCell);
            },
        }
        Ok(())
    }

    /// Run from a code address until control falls past the end of the
    /// code area, the fail flag is raised or a structural error occurs.
    /// The run is exactly the iterated one-instruction transition: on
    /// success the final state is reached from the entry by successful
    /// steps and is terminal; on an error, some state reached by
    /// successful steps met that structural error (or the step budget
    /// ran out).
    #[verifier::loop_isolation(false)]
    pub fn run_from(&mut self, entry: usize) -> (r: Result<(), MachineError>)
        requires
            old(self).wf(),
        ensures
            final(self).wf(),
            final(self).st().code == old(self).st().code,
            final(self).st().entries == old(self).st().entries,
            run_post(old(self).st(), entry, final(self).st(), r),
    {
        let ghost st0 = self.st();
        let ghost st_in = MState { p: entry, cp: st0.code.len() as usize, ..st0 };
        let sentinel = self.code.area.len();
        self.registers.p = entry;
        self.registers.cp = sentinel;
        proof {
            assert(self.st() =~= st_in);
        }
        let mut steps: usize = usize::MAX;
        while self.registers.p < self.code.area.len() && !self.fail
            invariant
                self.wf(),
                self.st().code == st0.code,
                self.st().entries == st0.entries,
                runs_n(st_in, self.st(), (usize::MAX - steps) as nat),
            decreases steps,
        {
            let ghost taken = (usize::MAX - steps) as nat;
            if steps == 0 {
                return Err(MachineError::InvalidCell);
            }
            steps = steps - 1;
            let ghost cur = self.st();
            proof {
                assert(run_reaches(st_in, cur));
                assert(!run_terminal(cur));
            }
            match self.step_once() {
                Ok(_) => {
                    proof {
                        lemma_runs_snoc(st_in, cur, self.st(), taken);
                        assert(runs_n(st_in, self.st(), (usize::MAX - steps) as nat));
                    }
                },
                Err(e) => {
                    proof {
                        assert(run_reaches(st_in, cur) && !run_terminal(cur) && instr_errs(
                            cur,
                            cur.code[cur.p as int],
                            e,
                        ));
                    }
                    return Err(e);
                },
            }
        }
        Ok(())
    }

    /// `GetStructure(f, xi)`: match register `xi` against the functor
    /// `f`.  An unbound variable is bound to a freshly built structure
    /// shell (write mode); an existing structure with the same functor
    /// sets S at its first argument (read mode); anything else raises
    /// the fail flag.
    pub fn get_structure(&mut self, f: Functor, xi: Register) -> (r: Result<(), MachineError>)
        requires
            old(self).wf(),
        ensures
            final(self).wf(),
            ({
                let st0 = old(self).st();
                let d = deref_store(st0, Store::Register(xi));
                let c = store_cell_v(st0, d).unwrap();
                match r {
                    Ok(_) => store_valid(st0, Store::Register(xi)) && match c {
                        CellV::Ref(t) => st0.h <= usize::MAX - 2 && final(self).st()
                            == gs_write_tgt(st0, f@, t),
                        CellV::Str(a) => a < st0.heap.len() && match st0.heap[a as int] {
                            CellV::Func(g) => if g == f@ {
                                final(self).st() == (MState {
                                    s: (a + 1) as usize,
                                    mode: Mode::Read,
                                    ..st0
                                })
                            } else {
                                final(self).st() == (MState { fail: true, ..st0 })
                            },
                            _ => false,
                        },
                        CellV::Func(_) => final(self).st() == (MState { fail: true, ..st0 }),
                    },
                    Err(e) => final(self).st() == st0 && ((e == MachineError::RegisterUnderflow
                        && !store_valid(st0, Store::Register(xi))) || (e
                        == MachineError::InvalidCell && store_valid(st0, Store::Register(xi))
                        && c is Ref && st0.h > usize::MAX - 2)),
                }
            }),
    {
        let ghost st0 = self.st();
        let ghost fv = f@;
        let d = match self.deref(Store::Register(xi)) {
            Ok(d) => d,
            Err(e) => {
                return Err(e);
            },
        };
        let cell = match self.get_store_cell(d) {
            Some(c) => c.clone(),
            None => {
                proof {
                    assert(false);
                }
                return Err(MachineError::InvalidCell);
            },
        };
        proof {
            lemma_store_cell_ok(st0, d);
        }
        match cell {
            Cell::Ref(_) => {
                let h = self.registers.h;
                if h > usize::MAX - 2 {
                    return Err(MachineError::InvalidCell);
                }
                let ghost t = cell_target(cell@).unwrap();
                self.heap.push(Cell::Str(h + 1));
                self.heap.push(Cell::Func(f));
                self.registers.h = h + 2;
                proof {
                    let st1 = MState {
                        heap: st0.heap + seq![
                            CellV::Str((st0.h + 1) as usize),
                            CellV::Func(fv),
                        ],
                        h: (st0.h + 2) as usize,
                        ..st0
                    };
                    assert(self.st() =~= st1);
                    assert forall|a: int|
                        st0.heap.len() <= a < st1.heap.len() implies #[trigger] heap_cell_ok(
                        st1.heap,
                        a,
                    ) by {
                        assert(st1.heap[st0.heap.len() as int] == CellV::Str(
                            (st0.h + 1) as usize,
                        ));
                        assert(st1.heap[st0.heap.len() as int + 1] == CellV::Func(fv));
                    }
                    lemma_extend_wf(st0, st1);
                    assert(store_valid(st1, d) && derefed(st1, d));
                    assert(store_valid(st1, Store::HeapAddr(st0.h)) && derefed(
                        st1,
                        Store::HeapAddr(st0.h),
                    ));
                    assert(store_cell_v(st1, d).unwrap() is Ref);
                }
                match self.bind(d, Store::HeapAddr(h)) {
                    Ok(_) => {},
                    Err(e) => {
                        proof {
                            assert(false);
                        }
                        return Err(e);
                    },
                }
                self.mode = Mode::Write;
                proof {
                    assert(self.st() =~= gs_write_tgt(st0, fv, t));
                }
                Ok(())
            },
            Cell::Str(a) => {
                proof {
                    assert(a < st0.heap.len() && st0.heap[a as int] is Func);
                }
                let matches_f: bool = match &self.heap[a] {
                    Cell::Func(g) => *g == f,
                    _ => {
                        proof {
                            assert(false);
                        }
                        return Err(MachineError::InvalidCell);
                    },
                };
                if matches_f {
                    let len = self.heap.len();
                    proof {
                        assert(a < len);
                    }
                    self.registers.s = a + 1;
                    self.mode = Mode::Read;
                    proof {
                        assert(self.st() =~= (MState {
                            s: (a + 1) as usize,
                            mode: Mode::Read,
                            ..st0
                        }));
                    }
                } else {
                    self.fail = true;
                    proof {
                        assert(self.st() =~= (MState { fail: true, ..st0 }));
                    }
                }
                Ok(())
            },
            Cell::Func(_) => {
                self.fail = true;
                proof {
                    assert(self.st() =~= (MState { fail: true, ..st0 }));
                }
                Ok(())
            },
        }
    }

    /// `UnifyVariable(xi)`: in read mode copy the next subterm cell
    /// into `xi`; in write mode push a fresh unbound variable and store
    /// it in `xi`.  S advances either way.
    pub fn unify_variable(&mut self, xi: Register) -> (r: Result<(), MachineError>)
        requires
            old(self).wf(),
        ensures
            final(self).wf(),
            ({
                let st0 = old(self).st();
                match r {
                    Ok(_) => match st0.mode {
                        Mode::Read => reg_writable(st0, xi) && st0.s < st0.heap.len() && final(self).st() == uv_read_tgt(st0, xi),
                        Mode::Write => reg_writable(st0, xi) && st0.s < usize::MAX && final(self).st() == uv_write_tgt(st0, xi),
                    },
                    Err(e) => final(self).st() == st0 && ((e == MachineError::RegisterUnderflow
                        && !reg_writable(st0, xi)) || (e == MachineError::InvalidCell
                        && reg_writable(st0, xi) && ((st0.mode is Read && st0.s
                        >= st0.heap.len()) || (st0.mode is Write && st0.s == usize::MAX)))),
                }
            }),
    {
        let ghost st0 = self.st();
        if !self.can_write_register(xi) {
            return Err(MachineError::RegisterUnderflow);
        }
        match self.mode {
            Mode::Read => {
                let s = self.registers.s;
                if s >= self.heap.len() {
                    return Err(MachineError::InvalidCell);
                }
                let c = self.heap[s].clone();
                proof {
                    assert(heap_cell_ok(st0.heap, s as int));
                }
                self.insert_register(xi, c);
                self.registers.s = s + 1;
                proof {
                    assert(self.st() =~= uv_read_tgt(st0, xi));
                }
            },
            Mode::Write => {
                let s = self.registers.s;
                if s == usize::MAX {
                    return Err(MachineError::InvalidCell);
                }
                let h = self.registers.h;
                self.heap.push(Cell::Ref(h));
                proof {
                    assert(self.heap.len() == st0.h + 1);
                }
                self.registers.h = h + 1;
                proof {
                    let st1 = MState {
                        heap: st0.heap + seq![CellV::Ref(st0.h)],
                        h: (st0.h + 1) as usize,
                        ..st0
                    };
                    assert(self.st() =~= st1);
                    assert forall|a: int|
                        st0.heap.len() <= a < st1.heap.len() implies #[trigger] heap_cell_ok(
                        st1.heap,
                        a,
                    ) by {
                        assert(st1.heap[st0.heap.len() as int] == CellV::Ref(st0.h));
                    }
                    lemma_extend_wf(st0, st1);
                }
                self.insert_register(xi, Cell::Ref(h));
                self.registers.s = s + 1;
                proof {
                    assert(self.st() =~= uv_write_tgt(st0, xi));
                }
            },
        }
        Ok(())
    }

    /// `UnifyValue(xi)`: in read mode unify `xi` with the next subterm;
    /// in write mode push a copy of `xi`'s cell.  S advances either
    /// way.
    pub fn unify_value(&mut self, xi: Register) -> (r: Result<(), MachineError>)
        requires
            old(self).wf(),
        ensures
            final(self).wf(),
            ({
                let st0 = old(self).st();
                let out = unify_run(
                    unify_init(st0, Store::Register(xi), Store::HeapAddr(st0.s)),
                    usize::MAX as nat,
                );
                match r {
                    Ok(_) => match st0.mode {
                        Mode::Read => st0.s < usize::MAX && out.1 is None && final(self).st()
                            == (MState { s: (st0.s + 1) as usize, ..out.0 }) && unify_post(
                            st0,
                            (MState { s: st0.s, ..final(self).st() }),
                            Store::Register(xi),
                            Store::HeapAddr(st0.s),
                        ),
                        Mode::Write => reg_cell(st0, xi) is Some && st0.s < usize::MAX && final(self).st() == (MState {
                            s: (st0.s + 1) as usize,
                            ..set_value_tgt(st0, reg_cell(st0, xi).unwrap())
                        }),
                    },
                    Err(e) => match st0.mode {
                        Mode::Read => (e == MachineError::InvalidCell && st0.s == usize::MAX
                            && final(self).st() == st0) || (st0.s < usize::MAX && out.1
                            == Some(e) && final(self).st() == out.0 && unify_frame(
                            st0,
                            final(self).st(),
                        )),
                        Mode::Write => final(self).st() == st0 && ((e
                            == MachineError::RegisterUnderflow && reg_cell(st0, xi) is None)
                            || (e == MachineError::InvalidCell && reg_cell(st0, xi) is Some
                            && st0.s == usize::MAX)),
                    },
                }
            }),
    {
        let ghost st0 = self.st();
        match self.mode {
            Mode::Read => {
                let s = self.registers.s;
                if s == usize::MAX {
                    return Err(MachineError::InvalidCell);
                }
                match self.unify(Store::Register(xi), Store::HeapAddr(s)) {
                    Ok(_) => {},
                    Err(e) => {
                        return Err(e);
                    },
                }
                let ghost stu = self.st();
                self.registers.s = s + 1;
                proof {
                    assert(self.st() =~= (MState { s: (st0.s + 1) as usize, ..stu }));
                    assert((MState { s: st0.s, ..self.st() }) =~= stu);
                }
            },
            Mode::Write => {
                let cell = match self.get_register(xi) {
                    Some(c) => c.clone(),
                    None => {
                        return Err(MachineError::RegisterUnderflow);
                    },
                };
                let s = self.registers.s;
                if s == usize::MAX {
                    return Err(MachineError::InvalidCell);
                }
                let h = self.registers.h;
                self.heap.push(cell);
                proof {
                    assert(self.heap.len() == st0.h + 1);
                }
                self.registers.h = h + 1;
                self.registers.s = s + 1;
                proof {
                    let cv = reg_cell(st0, xi).unwrap();
                    let st1 = MState {
                        s: (st0.s + 1) as usize,
                        ..set_value_tgt(st0, cv)
                    };
                    assert(self.st() =~= st1);
                    assert forall|a: int|
                        st0.heap.len() <= a < st1.heap.len() implies #[trigger] heap_cell_ok(
                        st1.heap,
                        a,
                    ) by {
                        assert(st1.heap[st0.heap.len() as int] == cv);
                        assert(rcell_ok(st0.heap, cv));
                    }
                    lemma_extend_wf(st0, MState { s: st0.s, ..st1 });
                    assert(self.st().wf());
                }
            },
        }
        Ok(())
    }

    /// `GetValue(xn, ai)`: unify the two registers.
    pub fn get_value(&mut self, xn: Register, ai: Register) -> (r: Result<(), MachineError>)
        requires
            old(self).wf(),
        ensures
            final(self).wf(),
            ({
                let out = unify_run(
                    unify_init(old(self).st(), Store::Register(xn), Store::Register(ai)),
                    usize::MAX as nat,
                );
                &&& final(self).st() == out.0
                &&& match r {
                    Ok(_) => out.1 is None,
                    Err(e) => out.1 == Some(e),
                }
            }),
            match r {
                Ok(_) => unify_post(
                    old(self).st(),
                    final(self).st(),
                    Store::Register(xn),
                    Store::Register(ai),
                ),
                Err(_) => unify_frame(old(self).st(), final(self).st()),
            },
    {
        self.unify(Store::Register(xn), Store::Register(ai))
    }

    /// `unify(a1, a2)`: Robinson-style unification of the two store
    /// addresses over the work list.  The fail flag is cleared first
    /// and raised on a functor clash; binding mutates `Ref` cells in
    /// place and never appends to the heap.  The loop is
    /// deterministic: the result — final state and error alike — is
    /// exactly [`unify_run`] on the initial state, within the
    /// `usize::MAX` step budget.
    #[verifier::loop_isolation(false)]
    #[verifier::rlimit(100)]
    pub fn unify(&mut self, a1: Store, a2: Store) -> (r: Result<(), MachineError>)
        requires
            old(self).wf(),
        ensures
            final(self).wf(),
            ({
                let out = unify_run(unify_init(old(self).st(), a1, a2), usize::MAX as nat);
                &&& final(self).st() == out.0
                &&& match r {
                    Ok(_) => out.1 is None,
                    Err(e) => out.1 == Some(e),
                }
            }),
            match r {
                Ok(_) => unify_post(old(self).st(), final(self).st(), a1, a2),
                Err(_) => unify_frame(old(self).st(), final(self).st()) && !unify_trivial(
                    old(self).st(),
                    a1,
                    a2,
                ) && !unify_clash(old(self).st(), a1, a2),
            },
    {
        let ghost st0 = self.st();
        let ghost uinit = unify_init(st0, a1, a2);
        self.pdl.push(a1);
        self.pdl.push(a2);
        self.fail = false;
        proof {
            assert(self.st() =~= uinit);
        }
        let mut budget: usize = usize::MAX;
        while !(self.pdl.len() == 0 || self.fail)
            invariant
                self.wf(),
                unify_frame(st0, self.st()),
                unify_run(uinit, usize::MAX as nat) == unify_run(self.st(), budget as nat),
            decreases budget,
        {
            if budget == 0 {
                proof {
                    lemma_not_special_on_err(st0, a1, a2);
                }
                return Err(MachineError::InvalidCell);
            }
            let ghost budget_top = budget as nat;
            budget = budget - 1;
            let ghost stl = self.st();
            let s1 = match self.pdl.pop() {
                Some(s) => s,
                None => {
                    proof {
                        assert(false);
                    }
                    return Err(MachineError::InvalidCell);
                },
            };
            let ghost sta = MState { pdl: stl.pdl.drop_last(), ..stl };
            proof {
                assert(self.st() =~= sta);
            }
            let s2 = match self.pdl.pop() {
                Some(s) => s,
                None => {
                    proof {
                        assert(unify_run(stl, budget_top) == (sta, Some(
                            MachineError::InvalidCell,
                        )));
                        lemma_not_special_on_err(st0, a1, a2);
                    }
                    return Err(MachineError::InvalidCell);
                },
            };
            let ghost stb = MState { pdl: sta.pdl.drop_last(), ..sta };
            proof {
                assert(self.st() =~= stb);
            }
            let d1 = match self.deref(s1) {
                Ok(d) => d,
                Err(e) => {
                    proof {
                        assert(unify_run(stl, budget_top) == (stb, Some(store_err_kind(s1))));
                        lemma_not_special_on_err(st0, a1, a2);
                    }
                    return Err(e);
                },
            };
            let d2 = match self.deref(s2) {
                Ok(d) => d,
                Err(e) => {
                    proof {
                        assert(unify_run(stl, budget_top) == (stb, Some(store_err_kind(s2))));
                        lemma_not_special_on_err(st0, a1, a2);
                    }
                    return Err(e);
                },
            };
            if d1 != d2 {
                let c1 = match self.get_store_cell(d1) {
                    Some(c) => c.clone(),
                    None => {
                        proof {
                            assert(false);
                        }
                        return Err(MachineError::InvalidCell);
                    },
                };
                let c2 = match self.get_store_cell(d2) {
                    Some(c) => c.clone(),
                    None => {
                        proof {
                            assert(false);
                        }
                        return Err(MachineError::InvalidCell);
                    },
                };
                if c1.is_ref() || c2.is_ref() {
                    match self.bind(d1, d2) {
                        Ok(_) => {},
                        Err(e) => {
                            proof {
                                assert(unify_run(stl, budget_top) == (stb, Some(
                                    MachineError::InvalidCell,
                                )));
                                lemma_not_special_on_err(st0, a1, a2);
                            }
                            return Err(e);
                        },
                    }
                    proof {
                        assert(self.st() == bind_tgt(
                            stb,
                            store_cell_v(stb, d1).unwrap(),
                            store_cell_v(stb, d2).unwrap(),
                        ));
                        assert(unify_run(stl, budget_top) == unify_run(
                            self.st(),
                            budget as nat,
                        ));
                        let stc = self.st();
                        assert forall|i: int|
                            0 <= i < st0.heap.len() && stc.heap[i] != st0.heap[i] implies (
                        #[trigger] st0.heap[i]) is Ref by {
                            if stl.heap[i] != st0.heap[i] {
                            } else {
                                assert(stl.heap[i] is Ref);
                            }
                        }
                    }
                } else {
                    let t1 = match c1.address() {
                        Some(t) => t,
                        None => {
                            proof {
                                assert(unify_run(stl, budget_top) == (stb, Some(
                                    MachineError::InvalidCell,
                                )));
                                lemma_not_special_on_err(st0, a1, a2);
                            }
                            return Err(MachineError::InvalidCell);
                        },
                    };
                    let t2 = match c2.address() {
                        Some(t) => t,
                        None => {
                            proof {
                                assert(unify_run(stl, budget_top) == (stb, Some(
                                    MachineError::InvalidCell,
                                )));
                                lemma_not_special_on_err(st0, a1, a2);
                            }
                            return Err(MachineError::InvalidCell);
                        },
                    };
                    let eqf: bool;
                    let n1: usize;
                    {
                        let f1 = match self.get_functor(&c1) {
                            Ok(f) => f,
                            Err(e) => {
                                proof {
                                    lemma_store_cell_ok(stl, d1);
                                    assert(false);
                                }
                                return Err(e);
                            },
                        };
                        let f2 = match self.get_functor(&c2) {
                            Ok(f) => f,
                            Err(e) => {
                                proof {
                                    lemma_store_cell_ok(stl, d2);
                                    assert(false);
                                }
                                return Err(e);
                            },
                        };
                        eqf = *f1 == *f2;
                        n1 = f1.arity();
                    }
                    if eqf {
                        if n1 > 0 && (t1 > usize::MAX - n1 || t2 > usize::MAX - n1) {
                            proof {
                                assert(unify_run(stl, budget_top) == (stb, Some(
                                    MachineError::InvalidCell,
                                )));
                                lemma_not_special_on_err(st0, a1, a2);
                            }
                            return Err(MachineError::InvalidCell);
                        }
                        let ghost tgt_pdl = stb.pdl + unify_arg_pairs(t1, t2, n1);
                        let mut idx: usize = 0;
                        while idx < n1
                            invariant
                                idx <= n1,
                                self.wf(),
                                n1 > 0 ==> t1 + n1 <= usize::MAX && t2 + n1 <= usize::MAX,
                                self.st() == (MState {
                                    pdl: stb.pdl + unify_arg_pairs(t1, t2, n1).take(
                                        2 * idx as int,
                                    ),
                                    ..stb
                                }),
                                unify_frame(st0, self.st()),
                            decreases n1 - idx,
                        {
                            let off = idx + 1;
                            self.pdl.push(Store::HeapAddr(t1 + off));
                            self.pdl.push(Store::HeapAddr(t2 + off));
                            idx = idx + 1;
                            proof {
                                let pairs = unify_arg_pairs(t1, t2, n1);
                                assert(pairs.take(2 * idx as int) =~= pairs.take(
                                    2 * (idx - 1),
                                ).push(pairs[2 * (idx - 1)]).push(pairs[2 * idx - 1]));
                                assert(stb.pdl + pairs.take(2 * idx as int) =~= (stb.pdl
                                    + pairs.take(2 * (idx - 1))).push(
                                    pairs[2 * (idx - 1)],
                                ).push(pairs[2 * idx - 1]));
                                assert(self.st() =~= (MState {
                                    pdl: stb.pdl + pairs.take(2 * idx as int),
                                    ..stb
                                }));
                            }
                        }
                        proof {
                            assert(unify_arg_pairs(t1, t2, n1).take(2 * n1 as int)
                                =~= unify_arg_pairs(t1, t2, n1));
                            assert(self.st() == (MState { pdl: tgt_pdl, ..stb }));
                            assert(unify_run(stl, budget_top) == unify_run(
                                self.st(),
                                budget as nat,
                            ));
                        }
                    } else {
                        self.fail = true;
                        proof {
                            assert(self.st() =~= (MState { fail: true, ..stb }));
                            assert(unify_run(stl, budget_top) == unify_run(
                                self.st(),
                                budget as nat,
                            ));
                        }
                    }
                }
            } else {
                proof {
                    assert(unify_run(stl, budget_top) == unify_run(self.st(), budget as nat));
                }
            }
        }
        proof {
            assert(unify_run(self.st(), budget as nat) == (self.st(), None::<MachineError>));
            if unify_trivial(st0, a1, a2) {
                lemma_unify_run_trivial(st0, a1, a2, usize::MAX as nat);
            }
            if unify_clash(st0, a1, a2) {
                lemma_unify_run_clash(st0, a1, a2, usize::MAX as nat);
            }
        }
        Ok(())
    }
}

} // verus!

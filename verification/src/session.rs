//! Running queries and programs: compile, load, execute, and read the
//! variable bindings back off the heap as text.

use vstd::prelude::*;
use vstd::multiset::Multiset;
use vstd::relations::sorted_by;

use crate::ast::Structuralize;
use crate::ast::Term;
use crate::ast::TermV;
use crate::compile::map_view;
use crate::compile::tkey;
use crate::machine::reg_cell;
use crate::cells::Cell;
use crate::cells::CellV;
use crate::cells::Functor;
use crate::cells::Register;
use crate::machine::deref_heap;
use crate::machine::Machine;
use crate::machine::MachineError;
use crate::machine::MState;

verus! {

/// The name the display map gives to the unbound variable cell at
/// heap address `r`: the first entry pairing `Ref(r)` with a variable.
pub open spec fn var_name_for(map: Seq<(CellV, TermV)>, r: usize) -> Option<Seq<char>>
    decreases map.len(),
{
    if map.len() == 0 {
        None
    } else {
        match (map[0].0, map[0].1) {
            (CellV::Ref(a), TermV::Var(nm)) => if a == r {
                Some(nm)
            } else {
                var_name_for(map.drop_first(), r)
            },
            _ => var_name_for(map.drop_first(), r),
        }
    }
}

/// The text the heap renders at address `a`, within a recursion
/// budget: a functor descriptor prints its name and, for positive
/// arity, the rendered arguments; a structure pointer follows the
/// pointer; an unbound variable prints its source name from the
/// display map (or nothing if it has none).  `None` when an address
/// is out of range or the budget is exhausted.
pub open spec fn rendered(st: MState, a: usize, map: Seq<(CellV, TermV)>, fuel: nat) -> Option<
    Seq<char>,
>
    decreases fuel, 0int, 0int,
{
    if a >= st.heap.len() || !crate::machine::heap_ok(st.heap) {
        None
    } else {
        let d = deref_heap(st.heap, a);
        match st.heap[d as int] {
            CellV::Func(f) => if f.arity == 0 {
                Some(f.name)
            } else if fuel == 0 {
                None
            } else {
                match rendered_args(st, d, 1, f.arity, map, (fuel - 1) as nat) {
                    Some(s) => Some(f.name + "("@ + s + ")"@),
                    None => None,
                }
            },
            CellV::Str(a2) => if fuel == 0 {
                None
            } else {
                rendered(st, a2, map, (fuel - 1) as nat)
            },
            CellV::Ref(r) => if r == d {
                match var_name_for(map, r) {
                    Some(nm) => Some(nm),
                    None => Some(Seq::empty()),
                }
            } else if fuel == 0 {
                None
            } else {
                rendered(st, r, map, (fuel - 1) as nat)
            },
        }
    }
}

/// The rendered arguments `base+i .. base+arity`, separated by `, `.
pub open spec fn rendered_args(
    st: MState,
    base: usize,
    i: usize,
    arity: usize,
    map: Seq<(CellV, TermV)>,
    fuel: nat,
) -> Option<Seq<char>>
    decreases fuel, 1int, arity - i,
{
    if i > arity {
        Some(Seq::empty())
    } else if base + i > usize::MAX {
        None
    } else {
        match rendered(st, (base + i) as usize, map, fuel) {
            None => None,
            Some(s1) => if i == arity {
                Some(s1)
            } else {
                match rendered_args(st, base, (i + 1) as usize, arity, map, fuel) {
                    None => None,
                    Some(rest) => Some(s1 + ", "@ + rest),
                }
            },
        }
    }
}

/// The recursion budget `resolve_term` works with: deep enough for
/// any acyclic heap.
pub open spec fn render_fuel(st: MState) -> nat {
    if st.heap.len() > (usize::MAX - 2) / 2 {
        usize::MAX as nat
    } else {
        (2 * st.heap.len() + 2) as nat
    }
}

/// View of the display map.
pub open spec fn pairs_view(s: Seq<(Cell, Term)>) -> Seq<(CellV, TermV)> {
    s.map_values(|p: (Cell, Term)| (p.0@, crate::ast::term_view(&p.1)))
}

/// Find the source-variable name for the unbound cell at `r`.
fn lookup_var_name(display_map: &[(Cell, Term)], r: usize) -> (out: Option<String>)
    ensures
        match out {
            Some(s) => var_name_for(pairs_view(display_map@), r) == Some(s@),
            None => var_name_for(pairs_view(display_map@), r) is None,
        },
{
    let ghost mv = pairs_view(display_map@);
    proof {
        assert(mv.skip(0) =~= mv);
    }
    let n = display_map.len();
    let mut i: usize = 0;
    while i < n
        invariant
            i <= n,
            n == display_map@.len(),
            mv == pairs_view(display_map@),
            mv.len() == n,
            var_name_for(mv, r) == var_name_for(mv.skip(i as int), r),
        decreases n - i,
    {
        proof {
            assert(mv.skip(i as int).len() == n - i);
            assert(mv.skip(i as int)[0] == mv[i as int]);
            assert(mv.skip(i as int).drop_first() =~= mv.skip(i + 1));
        }
        match &display_map[i].0 {
            Cell::Ref(a) => {
                if *a == r {
                    match &display_map[i].1 {
                        Term::Var(v) => {
                            return Some(v.0.clone());
                        },
                        _ => {},
                    }
                }
            },
            _ => {},
        }
        i = i + 1;
    }
    proof {
        assert(mv.skip(n as int).len() == 0);
    }
    None
}

/// Render the term denoted at heap address `addr` into `term_string`,
/// naming unbound variables through the display map.
#[verifier::loop_isolation(false)]
pub fn resolve_term(
    m: &Machine,
    addr: usize,
    display_map: &[(Cell, Term)],
    term_string: &mut String,
) -> (r: Result<(), MachineError>)
    requires
        m.wf(),
    ensures
        match r {
            Ok(_) => rendered(
                m.st(),
                addr,
                pairs_view(display_map@),
                render_fuel(m.st()),
            ) matches Some(txt) && final(term_string)@ == old(term_string)@ + txt,
            Err(e) => e == MachineError::InvalidCell && rendered(
                m.st(),
                addr,
                pairs_view(display_map@),
                render_fuel(m.st()),
            ) is None,
        },
{
    let hl = m.get_heap().len();
    let fuel: usize = if hl > (usize::MAX - 2) / 2 {
        usize::MAX
    } else {
        2 * hl + 2
    };
    proof {
        assert(m.st().heap.len() == hl);
        assert(fuel as nat == render_fuel(m.st()));
    }
    resolve_term_fuel(m, addr, display_map, term_string, fuel)
}

/// The fueled worker behind [`resolve_term`].
#[verifier::loop_isolation(false)]
fn resolve_term_fuel(
    m: &Machine,
    addr: usize,
    display_map: &[(Cell, Term)],
    term_string: &mut String,
    fuel: usize,
) -> (r: Result<(), MachineError>)
    requires
        m.wf(),
    ensures
        match r {
            Ok(_) => rendered(m.st(), addr, pairs_view(display_map@), fuel as nat) matches Some(
                txt,
            ) && final(term_string)@ == old(term_string)@ + txt,
            Err(e) => e == MachineError::InvalidCell && rendered(
                m.st(),
                addr,
                pairs_view(display_map@),
                fuel as nat,
            ) is None,
        },
    decreases fuel, 1int,
{
    let ghost st = m.st();
    let ghost mv = pairs_view(display_map@);
    let ghost base0 = term_string@;
    if addr >= m.get_heap().len() {
        return Err(MachineError::InvalidCell);
    }
    let d = match m.deref(crate::cells::Store::HeapAddr(addr)) {
        Ok(crate::cells::Store::HeapAddr(d)) => d,
        _ => {
            proof {
                assert(false);
            }
            return Err(MachineError::InvalidCell);
        },
    };
    proof {
        assert(d == deref_heap(st.heap, addr));
        assert(crate::machine::heap_cell_ok(st.heap, d as int));
    }
    let cell = match m.get_store_cell(crate::cells::Store::HeapAddr(d)) {
        Some(c) => c.clone(),
        None => {
            proof {
                assert(false);
            }
            return Err(MachineError::InvalidCell);
        },
    };
    match cell {
        Cell::Func(f) => {
            let arity = f.1;
            term_string.append(f.0.as_str());
            if arity == 0 {
                return Ok(());
            }
            if fuel == 0 {
                return Err(MachineError::InvalidCell);
            }
            term_string.append("(");
            let mut i: usize = 1;
            let ghost hdr = base0 + st.heap[d as int]->Func_0.name + "("@;
            while i <= arity
                invariant
                    1 <= i <= arity + 1,
                    i <= arity ==> rendered_args(st, d, i, arity, mv, (fuel - 1) as nat)
                        is Some ==> ({
                        let full = rendered_args(st, d, 1, arity, mv, (fuel - 1) as nat);
                        full is Some && term_string@ + rendered_args(
                            st,
                            d,
                            i,
                            arity,
                            mv,
                            (fuel - 1) as nat,
                        ).unwrap() == hdr + full.unwrap()
                    }),
                    i <= arity ==> (rendered_args(st, d, i, arity, mv, (fuel - 1) as nat)
                        is None ==> rendered_args(st, d, 1, arity, mv, (fuel - 1) as nat)
                        is None),
                    i > arity ==> ({
                        let full = rendered_args(st, d, 1, arity, mv, (fuel - 1) as nat);
                        full is Some && term_string@ == hdr + full.unwrap()
                    }),
                decreases arity + 1 - i,
            {
                if d > usize::MAX - i {
                    return Err(MachineError::InvalidCell);
                }
                match resolve_term_fuel(m, d + i, display_map, term_string, fuel - 1) {
                    Ok(_) => {},
                    Err(e) => {
                        return Err(e);
                    },
                }
                if i != arity {
                    term_string.append(", ");
                }
                i = i + 1;
            }
            term_string.append(")");
            Ok(())
        },
        Cell::Str(a2) => {
            if fuel == 0 {
                return Err(MachineError::InvalidCell);
            }
            resolve_term_fuel(m, a2, display_map, term_string, fuel - 1)
        },
        Cell::Ref(r0) => {
            if r0 == d {
                match lookup_var_name(display_map, r0) {
                    Some(nm) => {
                        term_string.append(nm.as_str());
                    },
                    None => {},
                }
                Ok(())
            } else {
                if fuel == 0 {
                    return Err(MachineError::InvalidCell);
                }
                resolve_term_fuel(m, r0, display_map, term_string, fuel - 1)
            }
        },
    }
}

/// Lexicographic order on text, by character code.
pub open spec fn lex_leq(a: Seq<char>, b: Seq<char>) -> bool
    decreases a.len(),
{
    if a.len() == 0 {
        true
    } else if b.len() == 0 {
        false
    } else if (a[0] as u32) < (b[0] as u32) {
        true
    } else if (a[0] as u32) > (b[0] as u32) {
        false
    } else {
        lex_leq(a.drop_first(), b.drop_first())
    }
}

/// The named ordering function, so that every mention is the same
/// function value.
pub open spec fn lex_fun() -> spec_fn(Seq<char>, Seq<char>) -> bool {
    |a: Seq<char>, b: Seq<char>| lex_leq(a, b)
}

/// Lexicographic order is reflexive.
pub proof fn lemma_lex_refl(a: Seq<char>)
    ensures
        lex_leq(a, a),
    decreases a.len(),
{
    if a.len() > 0 {
        lemma_lex_refl(a.drop_first());
    }
}

/// Lexicographic order is total.
pub proof fn lemma_lex_total(a: Seq<char>, b: Seq<char>)
    ensures
        lex_leq(a, b) || lex_leq(b, a),
    decreases a.len(),
{
    if a.len() > 0 && b.len() > 0 && a[0] as u32 == b[0] as u32 {
        lemma_lex_total(a.drop_first(), b.drop_first());
    }
}

/// Lexicographic order is transitive.
pub proof fn lemma_lex_trans(a: Seq<char>, b: Seq<char>, c: Seq<char>)
    requires
        lex_leq(a, b),
        lex_leq(b, c),
    ensures
        lex_leq(a, c),
    decreases a.len(),
{
    if a.len() > 0 && b.len() > 0 && c.len() > 0 && a[0] as u32 == b[0] as u32 && b[0] as u32
        == c[0] as u32 {
        lemma_lex_trans(a.drop_first(), b.drop_first(), c.drop_first());
    }
}

/// Compare two strings lexicographically.
fn str_le(a: &String, b: &String) -> (r: bool)
    ensures
        r == lex_leq(a@, b@),
{
    let sa = a.as_str();
    let sb = b.as_str();
    let n1 = sa.unicode_len();
    let n2 = sb.unicode_len();
    proof {
        assert(a@.skip(0) =~= a@);
        assert(b@.skip(0) =~= b@);
    }
    let mut i: usize = 0;
    while i < n1 && i < n2
        invariant
            i <= n1,
            i <= n2,
            n1 == a@.len(),
            n2 == b@.len(),
            sa@ == a@,
            sb@ == b@,
            lex_leq(a@, b@) == lex_leq(a@.skip(i as int), b@.skip(i as int)),
        decreases n1 - i,
    {
        let ca = sa.get_char(i);
        let cb = sb.get_char(i);
        proof {
            assert(a@.skip(i as int)[0] == a@[i as int]);
            assert(b@.skip(i as int)[0] == b@[i as int]);
            assert(a@.skip(i as int).drop_first() =~= a@.skip(i + 1));
            assert(b@.skip(i as int).drop_first() =~= b@.skip(i + 1));
        }
        if (ca as u32) < (cb as u32) {
            return true;
        }
        if (ca as u32) > (cb as u32) {
            return false;
        }
        i = i + 1;
    }
    proof {
        if i >= n1 {
            assert(a@.skip(i as int).len() == 0);
        } else {
            assert(b@.skip(i as int).len() == 0);
            assert(a@.skip(i as int).len() > 0);
        }
    }
    i >= n1
}

/// The views of a list of strings.
pub open spec fn strings_view(s: Seq<String>) -> Seq<Seq<char>> {
    s.map_values(|x: String| x@)
}

/// Sort a list of strings lexicographically: the result is sorted and
/// holds exactly the same lines.
#[verifier::loop_isolation(false)]
pub fn sort_strings(v: Vec<String>) -> (out: Vec<String>)
    ensures
        sorted_by(strings_view(out@), lex_fun()),
        strings_view(out@).to_multiset() == strings_view(v@).to_multiset(),
{
    broadcast use vstd::seq_lib::group_to_multiset_ensures;

    let ghost orig = strings_view(v@);
    let mut work = v;
    let mut out: Vec<String> = Vec::new();
    proof {
        assert(strings_view(out@) =~= Seq::<Seq<char>>::empty());
        assert(strings_view(out@).to_multiset().add(strings_view(work@).to_multiset())
            =~= orig.to_multiset());
    }
    while work.len() > 0
        invariant
            strings_view(out@).to_multiset().add(strings_view(work@).to_multiset())
                == orig.to_multiset(),
            sorted_by(strings_view(out@), lex_fun()),
            forall|p: int, q: int|
                0 <= p < out@.len() && 0 <= q < work@.len() ==> lex_leq(
                    strings_view(out@)[p],
                    strings_view(work@)[q],
                ),
        decreases work@.len(),
    {
        let n = work.len();
        let mut mi: usize = 0;
        proof {
            lemma_lex_refl(work@[0]@);
        }
        let mut j: usize = 1;
        while j < n
            invariant
                mi < j <= n,
                n == work@.len(),
                forall|q: int| 0 <= q < j ==> lex_leq(work@[mi as int]@, #[trigger] work@[q]@),
            decreases n - j,
        {
            if str_le(&work[j], &work[mi]) {
                proof {
                    assert forall|q: int| 0 <= q < j + 1 implies lex_leq(
                        work@[j as int]@,
                        #[trigger] work@[q]@,
                    ) by {
                        if q < j {
                            lemma_lex_trans(work@[j as int]@, work@[mi as int]@, work@[q]@);
                        } else {
                            lemma_lex_refl(work@[j as int]@);
                        }
                    }
                }
                mi = j;
            } else {
                proof {
                    lemma_lex_total(work@[j as int]@, work@[mi as int]@);
                }
            }
            j = j + 1;
        }
        let ghost outv0 = strings_view(out@);
        let ghost workv0 = strings_view(work@);
        let s = work.remove(mi);
        out.push(s);
        proof {
            assert(strings_view(out@) =~= outv0.push(workv0[mi as int]));
            assert(strings_view(work@) =~= workv0.remove(mi as int));
            assert(strings_view(out@).to_multiset() =~= outv0.to_multiset().insert(
                workv0[mi as int],
            ));
            assert(strings_view(work@).to_multiset() =~= workv0.to_multiset().remove(
                workv0[mi as int],
            ));
            assert(strings_view(out@).to_multiset().add(strings_view(work@).to_multiset())
                =~= orig.to_multiset());
            let outv = strings_view(out@);
            assert forall|p: int, q: int| 0 <= p < q < outv.len() implies lex_leq(
                outv[p],
                outv[q],
            ) by {
                if q < outv.len() - 1 {
                    assert(sorted_by(outv0, lex_fun()));
                    assert(lex_fun()(outv0[p], outv0[q]));
                }
            }
            assert(sorted_by(outv, lex_fun()));
            let workv = strings_view(work@);
            assert forall|p: int, q: int|
                0 <= p < outv.len() && 0 <= q < workv.len() implies lex_leq(
                outv[p],
                workv[q],
            ) by {
                if p < outv.len() - 1 {
                } else {
                    assert(workv[q] == workv0.remove(mi as int)[q]);
                }
            }
        }
    }
    proof {
        assert(strings_view(work@).to_multiset() =~= Multiset::<Seq<char>>::empty());
        assert(strings_view(out@).to_multiset() =~= orig.to_multiset());
    }
    out
}

/// Whether a line already stands in a list of lines.
fn contains_line(v: &Vec<String>, s: &String) -> (r: bool)
    ensures
        r == strings_view(v@).contains(s@),
{
    let n = v.len();
    let mut i: usize = 0;
    while i < n
        invariant
            i <= n,
            n == v@.len(),
            forall|q: int| 0 <= q < i ==> strings_view(v@)[q] != s@,
        decreases n - i,
    {
        if v[i] == *s {
            proof {
                assert(strings_view(v@)[i as int] == s@);
            }
            return true;
        }
        i = i + 1;
    }
    proof {
        assert forall|q: int| 0 <= q < strings_view(v@).len() implies strings_view(v@)[q]
            != s@ by {}
    }
    false
}

/// The display pairs a register map yields on a machine: each mapped
/// term whose register holds a cell is paired with that cell.
pub open spec fn collected(
    st: MState,
    mseq: Seq<(TermV, Register)>,
    i: int,
) -> Seq<(CellV, TermV)>
    decreases mseq.len() - i,
{
    if i < 0 || i >= mseq.len() {
        Seq::empty()
    } else {
        (match reg_cell(st, mseq[i].1) {
            Some(c) => seq![(c, mseq[i].0)],
            None => Seq::<(CellV, TermV)>::empty(),
        }) + collected(st, mseq, i + 1)
    }
}

/// The display pairs with terms read through the compiler's keys.
pub open spec fn keyed_pairs_view(s: Seq<(Cell, Term)>) -> Seq<(CellV, TermV)> {
    s.map_values(|p: (Cell, Term)| (p.0@, tkey(&p.1)))
}

/// Read the display pairs of a register map off the machine.
#[verifier::loop_isolation(false)]
fn collect_pairs(m: &Machine, map: &Vec<(Term, Register)>) -> (out: Vec<(Cell, Term)>)
    ensures
        keyed_pairs_view(out@) == collected(m.st(), map_view(map@), 0),
{
    let ghost mseq = map_view(map@);
    let mut output: Vec<(Cell, Term)> = Vec::new();
    proof {
        assert(keyed_pairs_view(output@) =~= Seq::<(CellV, TermV)>::empty());
    }
    let n = map.len();
    let mut i: usize = 0;
    while i < n
        invariant
            i <= n,
            n == map@.len(),
            mseq.len() == n,
            mseq == map_view(map@),
            keyed_pairs_view(output@) + collected(m.st(), mseq, i as int) == collected(
                m.st(),
                mseq,
                0,
            ),
        decreases n - i,
    {
        let ghost before = keyed_pairs_view(output@);
        match m.get_register(map[i].1) {
            Some(c) => {
                let cc = c.clone();
                let tt = map[i].0.clone();
                output.push((cc, tt));
            },
            None => {},
        }
        i = i + 1;
        proof {
            let here = match reg_cell(m.st(), mseq[i - 1].1) {
                Some(c) => seq![(c, mseq[i - 1].0)],
                None => Seq::<(CellV, TermV)>::empty(),
            };
            assert(keyed_pairs_view(output@) =~= before + here);
            assert((before + here) + collected(m.st(), mseq, i as int) =~= before + collected(
                m.st(),
                mseq,
                i - 1,
            ));
        }
    }
    proof {
        assert(collected(m.st(), mseq, n as int) =~= Seq::<(CellV, TermV)>::empty());
        assert(keyed_pairs_view(output@) + Seq::<(CellV, TermV)>::empty() =~= keyed_pairs_view(
            output@,
        ));
    }
    output
}

/// The empty query-compiler state.
pub open spec fn empty_cq_st() -> crate::compile::CompSt {
    crate::compile::CompSt { x: 0, m: Seq::empty(), seen: Seq::empty(), instrs: Seq::empty() }
}

/// The empty fact-compiler state.
pub open spec fn empty_cf_st() -> crate::compile::FactSt {
    crate::compile::FactSt {
        x: 0,
        m: Seq::empty(),
        seen: Seq::empty(),
        argi: Seq::empty(),
        insti: Seq::empty(),
    }
}

/// The machine state after the compiled query for `c` is appended to
/// the code area (without an entry).
pub open spec fn q_loaded(st0: MState, c: crate::ast::CompoundV) -> MState {
    MState { code: st0.code + crate::compile::cq(c, empty_cq_st()).instrs, ..st0 }
}

/// The machine state after the compiled fact for `c` is appended to
/// the code area with an entry for its functor.
pub open spec fn p_loaded(st0: MState, c: crate::ast::CompoundV) -> MState {
    MState {
        code: st0.code + (crate::compile::cf(c, empty_cf_st()).argi + crate::compile::cf(
            c,
            empty_cf_st(),
        ).insti),
        entries: st0.entries.push(
            (crate::compile::functor_of(c), st0.code.len() as usize),
        ),
        ..st0
    }
}

/// What a successful query run pins: the query compiled within the
/// machine limits, the loaded code ran from its entry (a `Call` to a
/// functor with no entry tolerated), and the output pairs read the
/// compilation's register map off the final state.
pub open spec fn query_term_ok(
    st0: MState,
    c: crate::ast::CompoundV,
    stf: MState,
    outv: Seq<(CellV, TermV)>,
) -> bool {
    &&& crate::compile::cq_ok(c, 0, empty_cq_st())
    &&& (exists|rr: Result<(), MachineError>|
        #[trigger] crate::machine::run_post(
            q_loaded(st0, c),
            st0.code.len() as usize,
            stf,
            rr,
        ) && (rr is Ok || rr == Err::<(), MachineError>(MachineError::UnknownFunctor)))
    &&& outv == collected(stf, crate::compile::cq(c, empty_cq_st()).m, 0)
}

/// Where a query run stops with an error: the term is no compound,
/// its compilation hit the machine limit, or the run met a
/// structural error.
pub open spec fn query_term_err(
    st0: MState,
    tv: Option<crate::ast::CompoundV>,
    stf: MState,
    e: MachineError,
) -> bool {
    ||| (e == MachineError::MalformedAst && tv is None)
    ||| (tv matches Some(c) && e == MachineError::InvalidCell && !crate::compile::cq_ok(
        c,
        0,
        empty_cq_st(),
    ))
    ||| (tv matches Some(c) && crate::compile::cq_ok(c, 0, empty_cq_st()) && e
        != MachineError::UnknownFunctor && crate::machine::run_post(
        q_loaded(st0, c),
        st0.code.len() as usize,
        stf,
        Err::<(), MachineError>(e),
    ))
}

/// What a successful program run pins: the fact compiled within the
/// machine limits, the loaded code ran to a terminal state from its
/// recorded entry, and the output pairs read the compilation's
/// register map off the final state.
pub open spec fn program_term_ok(
    st0: MState,
    c: crate::ast::CompoundV,
    stf: MState,
    outv: Seq<(CellV, TermV)>,
) -> bool {
    &&& crate::compile::cf_ok(c, 0, empty_cf_st())
    &&& crate::machine::run_post(
        p_loaded(st0, c),
        st0.code.len() as usize,
        stf,
        Ok::<(), MachineError>(()),
    )
    &&& outv == collected(stf, crate::compile::cf(c, empty_cf_st()).m, 0)
}

/// Where a program run stops with an error.
pub open spec fn program_term_err(
    st0: MState,
    tv: Option<crate::ast::CompoundV>,
    stf: MState,
    e: MachineError,
) -> bool {
    ||| (e == MachineError::MalformedAst && tv is None)
    ||| (tv matches Some(c) && e == MachineError::InvalidCell && !crate::compile::cf_ok(
        c,
        0,
        empty_cf_st(),
    ))
    ||| (tv matches Some(c) && crate::compile::cf_ok(c, 0, empty_cf_st())
        && crate::machine::run_post(
        p_loaded(st0, c),
        st0.code.len() as usize,
        stf,
        Err::<(), MachineError>(e),
    ))
}

/// Compile a query term, load its code without registering its
/// functor, run it, and return each mapped source term with the cell
/// its register holds.  A `Call` to a functor with no program loaded
/// yet leaves the argument registers set up and is not an error.  On
/// success the final machine state is reached by running the loaded
/// code from its entry.
pub fn query_term(m: &mut Machine, t: &Term) -> (r: Result<Vec<(Cell, Term)>, MachineError>)
    requires
        old(m).wf(),
    ensures
        final(m).wf(),
        ({
            match (r, t.sview()) {
                (Ok(out), Some(c)) => query_term_ok(
                    old(m).st(),
                    c,
                    final(m).st(),
                    keyed_pairs_view(out@),
                ),
                (Ok(_), None) => false,
                (Err(e), _) => query_term_err(old(m).st(), t.sview(), final(m).st(), e),
            }
        }),
{
    if matches!(t, Term::Var(_)) {
        return Err(MachineError::MalformedAst);
    }
    let mut map: Vec<(Term, Register)> = Vec::new();
    let mut seen: Vec<Term> = Vec::new();
    proof {
        assert(map_view(map@) =~= Seq::<(TermV, Register)>::empty());
        assert(crate::compile::seen_view(seen@) =~= Seq::<TermV>::empty());
        assert((crate::compile::CompSt {
            x: 0,
            m: map_view(map@),
            seen: crate::compile::seen_view(seen@),
            instrs: Seq::empty(),
        }) =~= empty_cq_st());
    }
    let instructions = match crate::compile::compile_query(t, &mut map, &mut seen) {
        Ok(i) => i,
        Err(e) => {
            return Err(e);
        },
    };
    let ghost st0m = m.st();
    let ghost rrg: Result<(), MachineError> = Ok(());
    let entry = m.get_code().len();
    m.append_code(instructions.as_slice());
    proof {
        assert(st0m == old(m).st());
        assert(m.st() =~= q_loaded(st0m, t.sview().unwrap()));
        assert(entry as nat == st0m.code.len());
    }
    match m.run_from(entry) {
        Ok(_) => {},
        Err(MachineError::UnknownFunctor) => {
            proof {
                rrg = Err::<(), MachineError>(MachineError::UnknownFunctor);
            }
        },
        Err(e) => {
            return Err(e);
        },
    }
    proof {
        let c = t.sview().unwrap();
        assert(crate::machine::run_post(
            q_loaded(old(m).st(), c),
            old(m).st().code.len() as usize,
            m.st(),
            rrg,
        ) && (rrg is Ok || rrg == Err::<(), MachineError>(MachineError::UnknownFunctor)));
    }
    let out = collect_pairs(m, &map);
    proof {
        let c = t.sview().unwrap();
        assert(crate::compile::cq_ok(c, 0, empty_cq_st()));
        assert(map_view(map@) == crate::compile::cq(c, empty_cq_st()).m);
        assert(keyed_pairs_view(out@) == collected(
            m.st(),
            crate::compile::cq(c, empty_cq_st()).m,
            0,
        ));
        assert(exists|rr: Result<(), MachineError>|
            #[trigger] crate::machine::run_post(
                q_loaded(old(m).st(), c),
                old(m).st().code.len() as usize,
                m.st(),
                rr,
            ) && (rr is Ok || rr == Err::<(), MachineError>(MachineError::UnknownFunctor)));
    }
    Ok(out)
}

/// Parse a query, compile and run it: the whole pipeline from the
/// text, pinned through the grammar ([`crate::syntax::p_expression`])
/// and [`query_term`].
pub fn query(m: &mut Machine, q: &str) -> (r: Result<Vec<(Cell, Term)>, MachineError>)
    requires
        old(m).wf(),
    ensures
        final(m).wf(),
        ({
            let qo = crate::syntax::p_expression(q@);
            match r {
                Ok(out) => qo is Some && crate::ast::structuralized(qo.unwrap()) is Some
                    && query_term_ok(
                    old(m).st(),
                    crate::ast::structuralized(qo.unwrap()).unwrap(),
                    final(m).st(),
                    keyed_pairs_view(out@),
                ),
                Err(e) => (e == MachineError::ParseError && qo is None) || (qo is Some
                    && query_term_err(
                    old(m).st(),
                    crate::ast::structuralized(qo.unwrap()),
                    final(m).st(),
                    e,
                )),
            }
        }),
{
    let t = match crate::syntax::parse_expression(q) {
        Ok(t) => t,
        Err(e) => {
            return Err(e);
        },
    };
    query_term(m, &t)
}

/// Compile a program clause (a fact), load it under its functor, run
/// it against the current register state, and return each mapped
/// source term with the cell its register holds.
pub fn program_term(m: &mut Machine, t: &Term) -> (r: Result<Vec<(Cell, Term)>, MachineError>)
    requires
        old(m).wf(),
    ensures
        final(m).wf(),
        ({
            match (r, t.sview()) {
                (Ok(out), Some(c)) => program_term_ok(
                    old(m).st(),
                    c,
                    final(m).st(),
                    keyed_pairs_view(out@),
                ),
                (Ok(_), None) => false,
                (Err(e), _) => program_term_err(old(m).st(), t.sview(), final(m).st(), e),
            }
        }),
{
    if matches!(t, Term::Var(_)) {
        return Err(MachineError::MalformedAst);
    }
    let mut map: Vec<(Term, Register)> = Vec::new();
    let mut seen: Vec<Term> = Vec::new();
    proof {
        assert(map_view(map@) =~= Seq::<(TermV, Register)>::empty());
        assert(crate::compile::seen_view(seen@) =~= Seq::<TermV>::empty());
        assert((crate::compile::FactSt {
            x: 0,
            m: map_view(map@),
            seen: crate::compile::seen_view(seen@),
            argi: Seq::empty(),
            insti: Seq::empty(),
        }) =~= empty_cf_st());
    }
    let instructions = match crate::compile::compile_fact(t, &mut map, &mut seen) {
        Ok(i) => i,
        Err(e) => {
            return Err(e);
        },
    };
    let compound = match Structuralize::structuralize(t) {
        Some(c) => c,
        None => {
            return Err(MachineError::MalformedAst);
        },
    };
    let functor = Functor(compound.name, compound.arity);
    let ghost st0m = m.st();
    m.push_instructions(&functor, instructions.as_slice());
    proof {
        assert(st0m == old(m).st());
        assert(functor@ == crate::compile::functor_of(t.sview().unwrap()));
        assert(m.st() =~= p_loaded(st0m, t.sview().unwrap()));
        let es = p_loaded(st0m, t.sview().unwrap()).entries;
        assert(es.drop_last() =~= st0m.entries);
        assert(crate::machine::entry_lookup(es, functor@) == Some(
            st0m.code.len() as usize,
        ));
    }
    match m.execute_instructions(&functor) {
        Ok(_) => {},
        Err(e) => {
            return Err(e);
        },
    }
    proof {
        let c = t.sview().unwrap();
        assert(crate::machine::run_post(
            p_loaded(old(m).st(), c),
            old(m).st().code.len() as usize,
            m.st(),
            Ok::<(), MachineError>(()),
        ));
    }
    let out = collect_pairs(m, &map);
    proof {
        let c = t.sview().unwrap();
        assert(crate::compile::cf_ok(c, 0, empty_cf_st()));
        assert(map_view(map@) == crate::compile::cf(c, empty_cf_st()).m);
        assert(keyed_pairs_view(out@) == collected(
            m.st(),
            crate::compile::cf(c, empty_cf_st()).m,
            0,
        ));
    }
    Ok(out)
}

/// Parse a program clause, compile and run it: the whole pipeline
/// from the text, pinned through the grammar and [`program_term`].
pub fn program(m: &mut Machine, p: &str) -> (r: Result<Vec<(Cell, Term)>, MachineError>)
    requires
        old(m).wf(),
    ensures
        final(m).wf(),
        ({
            let po = crate::syntax::p_expression(p@);
            match r {
                Ok(out) => po is Some && crate::ast::structuralized(po.unwrap()) is Some
                    && program_term_ok(
                    old(m).st(),
                    crate::ast::structuralized(po.unwrap()).unwrap(),
                    final(m).st(),
                    keyed_pairs_view(out@),
                ),
                Err(e) => (e == MachineError::ParseError && po is None) || (po is Some
                    && program_term_err(
                    old(m).st(),
                    crate::ast::structuralized(po.unwrap()),
                    final(m).st(),
                    e,
                )),
            }
        }),
{
    let t = match crate::syntax::parse_expression(p) {
        Ok(t) => t,
        Err(e) => {
            return Err(e);
        },
    };
    program_term(m, &t)
}

/// The binding lines a display map yields, walked from entry `i` with
/// the lines gathered so far in `acc`: a variable entry whose cell
/// renders to something other than its own name contributes the line
/// `name = text`, unless that line already stands in `already`.
/// `None` when a rendering fails.
pub open spec fn binding_lines(
    st: MState,
    display: Seq<(CellV, TermV)>,
    already: Seq<Seq<char>>,
    i: int,
    acc: Seq<Seq<char>>,
) -> Option<Seq<Seq<char>>>
    decreases display.len() - i,
{
    if i < 0 || i >= display.len() {
        Some(acc)
    } else {
        let cell = display[i].0;
        let term = display[i].1;
        let addr_opt = match cell {
            CellV::Ref(a) => Some(a),
            CellV::Str(a) => Some(a),
            CellV::Func(_) => None,
        };
        let acc2 = match addr_opt {
            Some(a) => if term is Var {
                match rendered(st, a, display, render_fuel(st)) {
                    None => None,
                    Some(txt) => {
                        let tt = crate::ast::term_text(term);
                        if txt != tt {
                            let line = tt + " = "@ + txt;
                            if !already.contains(line) {
                                Some(acc.push(line))
                            } else {
                                Some(acc)
                            }
                        } else {
                            Some(acc)
                        }
                    },
                }
            } else {
                Some(acc)
            },
            None => Some(acc),
        };
        match acc2 {
            Some(a2) => binding_lines(st, display, already, i + 1, a2),
            None => None,
        }
    }
}

/// Collect the rendered bindings of the variable entries of
/// `display_vec`, skipping a variable whose rendering is its own name
/// and lines already in `already`, appending to `out`.
#[verifier::loop_isolation(false)]
pub fn collect_bindings(
    m: &Machine,
    display_vec: &Vec<(Cell, Term)>,
    already: &Vec<String>,
    out: &mut Vec<String>,
) -> (r: Result<(), MachineError>)
    requires
        m.wf(),
    ensures
        ({
            let lines = binding_lines(
                m.st(),
                pairs_view(display_vec@),
                strings_view(already@),
                0,
                strings_view(old(out)@),
            );
            match r {
                Ok(_) => lines matches Some(l) && strings_view(final(out)@) == l,
                Err(e) => e == MachineError::InvalidCell && lines is None,
            }
        }),
{
    let ghost st = m.st();
    let ghost display = pairs_view(display_vec@);
    let ghost alr = strings_view(already@);
    let ghost acc0 = strings_view(out@);
    let n = display_vec.len();
    let mut i: usize = 0;
    while i < n
        invariant
            i <= n,
            n == display_vec@.len(),
            display.len() == n,
            binding_lines(st, display, alr, i as int, strings_view(out@)) == binding_lines(
                st,
                display,
                alr,
                0,
                acc0,
            ),
        decreases n - i,
    {
        let ghost acc_cur = strings_view(out@);
        let addr_opt: Option<usize> = match &display_vec[i].0 {
            Cell::Ref(a) => Some(*a),
            Cell::Str(a) => Some(*a),
            Cell::Func(_) => None,
        };
        let is_var = matches!(&display_vec[i].1, Term::Var(_));
        match addr_opt {
            Some(a) => {
                if is_var {
                    let mut buffer = String::new();
                    match resolve_term(m, a, display_vec.as_slice(), &mut buffer) {
                        Ok(_) => {},
                        Err(e) => {
                            return Err(e);
                        },
                    }
                    let tt = display_vec[i].1.to_text();
                    if !(buffer == tt) {
                        let mut line = tt;
                        line.append(" = ");
                        line.append(buffer.as_str());
                        if !contains_line(already, &line) {
                            out.push(line);
                            proof {
                                assert(strings_view(out@) =~= acc_cur.push(
                                    strings_view(out@).last(),
                                ));
                            }
                        }
                    }
                }
            },
            None => {},
        }
        i = i + 1;
    }
    Ok(())
}


/// The image of display pairs under the compiler's keying (an atom
/// and its nullary structural form share one key; variables are
/// untouched, and only variable entries matter to rendering).
pub open spec fn keyed_image(s: Seq<(CellV, TermV)>) -> Seq<(CellV, TermV)> {
    s.map_values(|p: (CellV, TermV)| (p.0, crate::compile::norm_key(p.1)))
}

/// The two keyed views of a display vector agree.
proof fn lemma_keyed_bridge(s: Seq<(Cell, Term)>)
    ensures
        keyed_pairs_view(s) == keyed_image(pairs_view(s)),
{
    assert(keyed_pairs_view(s) =~= keyed_image(pairs_view(s)));
}

/// A completed query phase: the compiled query was appended
/// unregistered and run; a `Call` to a functor with no entry is
/// tolerated, anything else ran to a terminal state.
pub open spec fn query_phase(
    st0: MState,
    c: crate::ast::CompoundV,
    m1: MState,
    rr: Result<(), MachineError>,
) -> bool {
    &&& crate::compile::cq_ok(c, 0, empty_cq_st())
    &&& (rr is Ok || rr == Err::<(), MachineError>(MachineError::UnknownFunctor))
    &&& crate::machine::run_post(q_loaded(st0, c), st0.code.len() as usize, m1, rr)
}

/// Everything one whole session pins, with all its intermediate
/// values named: the query phase from `st0` reaching `m1`, the
/// program phase from `m1` reaching `stf`, the two display maps tied
/// to the register maps of the two compilations, the two rendered
/// line collections, and the sorted outputs.
pub open spec fn session_chain(
    st0: MState,
    qc: crate::ast::CompoundV,
    pc: crate::ast::CompoundV,
    stf: MState,
    qb: Seq<Seq<char>>,
    pb: Seq<Seq<char>>,
    m1: MState,
    rr: Result<(), MachineError>,
    dq: Seq<(CellV, TermV)>,
    dp: Seq<(CellV, TermV)>,
    lq: Seq<Seq<char>>,
    lp: Seq<Seq<char>>,
) -> bool {
    &&& query_phase(st0, qc, m1, rr)
    &&& keyed_image(dq) == collected(m1, crate::compile::cq(qc, empty_cq_st()).m, 0)
    &&& crate::compile::cf_ok(pc, 0, empty_cf_st())
    &&& crate::machine::run_post(
        p_loaded(m1, pc),
        m1.code.len() as usize,
        stf,
        Ok::<(), MachineError>(()),
    )
    &&& keyed_image(dp) == collected(stf, crate::compile::cf(pc, empty_cf_st()).m, 0)
    &&& binding_lines(stf, dq, Seq::empty(), 0, Seq::empty()) == Some(lq)
    &&& binding_lines(stf, dq + dp, lq, 0, Seq::empty()) == Some(lp)
    &&& qb.to_multiset() == lq.to_multiset()
    &&& sorted_by(qb, lex_fun())
    &&& pb.to_multiset() == lp.to_multiset()
    &&& sorted_by(pb, lex_fun())
}

/// A successful session from `st0` to `stf` with outputs `qb`, `pb`.
pub open spec fn session_ok(
    st0: MState,
    qc: crate::ast::CompoundV,
    pc: crate::ast::CompoundV,
    stf: MState,
    qb: Seq<Seq<char>>,
    pb: Seq<Seq<char>>,
) -> bool {
    exists|
        m1: MState,
        rr: Result<(), MachineError>,
        dq: Seq<(CellV, TermV)>,
        dp: Seq<(CellV, TermV)>,
        lq: Seq<Seq<char>>,
        lp: Seq<Seq<char>>,
    |
        #[trigger] session_chain(st0, qc, pc, stf, qb, pb, m1, rr, dq, dp, lq, lp)
}

/// One way a session's rendering can fail after both phases ran:
/// with the display maps tied to the two compilations' register
/// maps, one of the two line collections hits the machine limit (a
/// cyclic term exhausts the rendering budget).
pub open spec fn render_failure_at(
    m1: MState,
    stf: MState,
    qc: crate::ast::CompoundV,
    pc: crate::ast::CompoundV,
    dq: Seq<(CellV, TermV)>,
    dp: Seq<(CellV, TermV)>,
    lq: Seq<Seq<char>>,
) -> bool {
    &&& keyed_image(dq) == collected(m1, crate::compile::cq(qc, empty_cq_st()).m, 0)
    &&& keyed_image(dp) == collected(stf, crate::compile::cf(pc, empty_cf_st()).m, 0)
    &&& (binding_lines(stf, dq, Seq::empty(), 0, Seq::empty()) is None || (binding_lines(
        stf,
        dq,
        Seq::empty(),
        0,
        Seq::empty(),
    ) == Some(lq) && binding_lines(stf, dq + dp, lq, 0, Seq::empty()) is None))
}

/// Whether some tied display maps make the session's rendering fail.
pub open spec fn render_failure(
    m1: MState,
    stf: MState,
    qc: crate::ast::CompoundV,
    pc: crate::ast::CompoundV,
) -> bool {
    exists|dq: Seq<(CellV, TermV)>, dp: Seq<(CellV, TermV)>, lq: Seq<Seq<char>>|
        #[trigger] render_failure_at(m1, stf, qc, pc, dq, dp, lq)
}

/// Where a session can stop with a structural error: the query is no
/// compound, its compilation or run failed, or — after a completed
/// query phase — the program side failed likewise, or a rendering hit
/// the machine limit.
pub open spec fn session_err(
    st0: MState,
    qtv: Option<crate::ast::CompoundV>,
    ptv: Option<crate::ast::CompoundV>,
    stf: MState,
    e: MachineError,
) -> bool {
    ||| (e == MachineError::MalformedAst && (qtv is None || ptv is None))
    ||| (qtv matches Some(c) && e == MachineError::InvalidCell && !crate::compile::cq_ok(
        c,
        0,
        empty_cq_st(),
    ))
    ||| (qtv matches Some(c) && crate::compile::cq_ok(c, 0, empty_cq_st()) && e
        != MachineError::UnknownFunctor && crate::machine::run_post(
        q_loaded(st0, c),
        st0.code.len() as usize,
        stf,
        Err::<(), MachineError>(e),
    ))
    ||| (qtv matches Some(c) && exists|m1: MState, rr: Result<(), MachineError>|
        #[trigger] query_phase(st0, c, m1, rr) && ((ptv matches Some(cp) && ((e
            == MachineError::InvalidCell && !crate::compile::cf_ok(cp, 0, empty_cf_st())) || (
        crate::compile::cf_ok(cp, 0, empty_cf_st()) && crate::machine::run_post(
            p_loaded(m1, cp),
            m1.code.len() as usize,
            stf,
            Err::<(), MachineError>(e),
        )) || (e == MachineError::InvalidCell && crate::compile::cf_ok(cp, 0, empty_cf_st())
            && crate::machine::run_post(
            p_loaded(m1, cp),
            m1.code.len() as usize,
            stf,
            Ok::<(), MachineError>(()),
        ) && render_failure(m1, stf, c, cp))))))
}

/// Execute a query, then a program clause, and render the resulting
/// variable bindings: first the query side, then the program side
/// (without lines the query side already shows), each sorted
/// lexicographically.  The lines each side yields are pinned by
/// [`binding_lines`] through [`collect_bindings`]; this function
/// arranges the two passes and sorts what they produce.
/// Execute a query term, then a program clause, and render the
/// resulting variable bindings: first the query side, then the
/// program side (without lines the query side already shows), each
/// sorted lexicographically.  On success the whole pipeline is
/// pinned by [`session_ok`]; on an error, [`session_err`] says where
/// it was met.
#[verifier::loop_isolation(false)]
pub fn run_query_terms(m: &mut Machine, qt: &Term, pt: &Term) -> (r: Result<
    (Vec<String>, Vec<String>),
    MachineError,
>)
    requires
        old(m).wf(),
    ensures
        final(m).wf(),
        match r {
            Ok(bindings) => (qt.sview() matches Some(qc)) && (pt.sview() matches Some(pc))
                && session_ok(
                old(m).st(),
                qt.sview().unwrap(),
                pt.sview().unwrap(),
                final(m).st(),
                strings_view(bindings.0@),
                strings_view(bindings.1@),
            ),
            Err(e) => session_err(old(m).st(), qt.sview(), pt.sview(), final(m).st(), e),
        },
{
    let ghost st0 = m.st();
    let query_map = match query_term(m, qt) {
        Ok(qm) => qm,
        Err(e) => {
            return Err(e);
        },
    };
    let ghost m1 = m.st();
    let ghost qc = qt.sview().unwrap();
    let ghost rr = choose|rr: Result<(), MachineError>|
        #[trigger] crate::machine::run_post(
            q_loaded(st0, qc),
            st0.code.len() as usize,
            m1,
            rr,
        ) && (rr is Ok || rr == Err::<(), MachineError>(MachineError::UnknownFunctor));
    proof {
        assert(query_phase(st0, qc, m1, rr));
    }
    let program_map = match program_term(m, pt) {
        Ok(pm) => pm,
        Err(e) => {
            proof {
                assert(session_err(st0, qt.sview(), pt.sview(), m.st(), e));
            }
            return Err(e);
        },
    };
    let ghost pc = pt.sview().unwrap();
    let ghost stf = m.st();
    let mut display_vec: Vec<(Cell, Term)> = Vec::new();
    let nq = query_map.len();
    let mut i: usize = 0;
    while i < nq
        invariant
            i <= nq,
            nq == query_map@.len(),
            pairs_view(display_vec@) == pairs_view(query_map@).take(i as int),
        decreases nq - i,
    {
        let ghost before = pairs_view(display_vec@);
        let cc = query_map[i].0.clone();
        let tt = query_map[i].1.clone();
        display_vec.push((cc, tt));
        i = i + 1;
        proof {
            assert(pairs_view(display_vec@) =~= before.push(pairs_view(query_map@)[i - 1]));
            assert(pairs_view(query_map@).take(i as int) =~= before.push(
                pairs_view(query_map@)[i - 1],
            ));
        }
    }
    let ghost dq = pairs_view(display_vec@);
    proof {
        assert(pairs_view(query_map@).take(nq as int) =~= pairs_view(query_map@));
        lemma_keyed_bridge(query_map@);
        lemma_keyed_bridge(display_vec@);
        assert(keyed_image(dq) =~= keyed_image(pairs_view(query_map@)));
        assert(keyed_image(dq) == collected(m1, crate::compile::cq(qc, empty_cq_st()).m, 0));
    }
    let mut query_bindings: Vec<String> = Vec::new();
    let none: Vec<String> = Vec::new();
    match collect_bindings(m, &display_vec, &none, &mut query_bindings) {
        Ok(_) => {},
        Err(e) => {
            proof {
                assert(strings_view(none@) =~= Seq::<Seq<char>>::empty());
                let dpv = pairs_view(program_map@);
                lemma_keyed_bridge(program_map@);
                assert(keyed_image(dpv) == collected(
                    stf,
                    crate::compile::cf(pc, empty_cf_st()).m,
                    0,
                ));
                assert(binding_lines(stf, dq, Seq::empty(), 0, Seq::empty()) is None);
                assert(render_failure_at(m1, stf, qc, pc, dq, dpv, Seq::empty()));
                assert(render_failure(m1, stf, qc, pc));
                assert(query_phase(st0, qc, m1, rr));
                assert(session_err(st0, qt.sview(), pt.sview(), m.st(), e));
            }
            return Err(e);
        },
    }
    let ghost lq = strings_view(query_bindings@);
    proof {
        assert(strings_view(none@) =~= Seq::<Seq<char>>::empty());
        assert(binding_lines(stf, dq, Seq::empty(), 0, Seq::empty()) == Some(lq));
    }
    let np = program_map.len();
    let mut i: usize = 0;
    while i < np
        invariant
            i <= np,
            np == program_map@.len(),
            pairs_view(display_vec@) == dq + pairs_view(program_map@).take(i as int),
        decreases np - i,
    {
        let ghost before = pairs_view(display_vec@);
        let cc = program_map[i].0.clone();
        let tt = program_map[i].1.clone();
        display_vec.push((cc, tt));
        i = i + 1;
        proof {
            assert(pairs_view(display_vec@) =~= before.push(pairs_view(program_map@)[i - 1]));
            assert(dq + pairs_view(program_map@).take(i as int) =~= before.push(
                pairs_view(program_map@)[i - 1],
            ));
        }
    }
    let ghost dp = pairs_view(program_map@);
    proof {
        assert(pairs_view(program_map@).take(np as int) =~= pairs_view(program_map@));
        assert(pairs_view(display_vec@) == dq + dp);
        lemma_keyed_bridge(program_map@);
        assert(keyed_image(dp) == collected(stf, crate::compile::cf(pc, empty_cf_st()).m, 0));
    }
    let mut program_bindings: Vec<String> = Vec::new();
    match collect_bindings(m, &display_vec, &query_bindings, &mut program_bindings) {
        Ok(_) => {},
        Err(e) => {
            proof {
                assert(binding_lines(stf, dq + dp, lq, 0, Seq::empty()) is None);
                assert(render_failure_at(m1, stf, qc, pc, dq, dp, lq));
                assert(render_failure(m1, stf, qc, pc));
                assert(query_phase(st0, qc, m1, rr));
                assert(session_err(st0, qt.sview(), pt.sview(), m.st(), e));
            }
            return Err(e);
        },
    }
    let ghost lp = strings_view(program_bindings@);
    let query_sorted = sort_strings(query_bindings);
    let program_sorted = sort_strings(program_bindings);
    proof {
        assert(session_chain(
            st0,
            qc,
            pc,
            stf,
            strings_view(query_sorted@),
            strings_view(program_sorted@),
            m1,
            rr,
            dq,
            dp,
            lq,
            lp,
        ));
    }
    Ok((query_sorted, program_sorted))
}

/// Parse a query and a program clause and run the session: the whole
/// pipeline from the two texts, pinned through the grammar and
/// [`run_query_terms`].
pub fn run_query(m: &mut Machine, q: &str, p: &str) -> (r: Result<
    (Vec<String>, Vec<String>),
    MachineError,
>)
    requires
        old(m).wf(),
    ensures
        final(m).wf(),
        ({
            let qo = crate::syntax::p_expression(q@);
            let po = crate::syntax::p_expression(p@);
            match r {
                Ok(bindings) => qo is Some && po is Some && crate::ast::structuralized(
                    qo.unwrap(),
                ) is Some && crate::ast::structuralized(po.unwrap()) is Some && session_ok(
                    old(m).st(),
                    crate::ast::structuralized(qo.unwrap()).unwrap(),
                    crate::ast::structuralized(po.unwrap()).unwrap(),
                    final(m).st(),
                    strings_view(bindings.0@),
                    strings_view(bindings.1@),
                ),
                Err(e) => (e == MachineError::ParseError && (qo is None || po is None)) || (
                qo is Some && po is Some && session_err(
                    old(m).st(),
                    crate::ast::structuralized(qo.unwrap()),
                    crate::ast::structuralized(po.unwrap()),
                    final(m).st(),
                    e,
                )),
            }
        }),
{
    let qt = match crate::syntax::parse_expression(q) {
        Ok(t) => t,
        Err(e) => {
            return Err(e);
        },
    };
    let pt = match crate::syntax::parse_expression(p) {
        Ok(t) => t,
        Err(e) => {
            return Err(e);
        },
    };
    run_query_terms(m, &qt, &pt)
}

} // verus!
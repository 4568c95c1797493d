//! The compiler: lowering terms, facts and rules to the instruction
//! set, with register allocation and permanent-variable analysis.
//!
//! Every pass is mirrored by a spec function over views; the
//! executable pass is proved to produce exactly the mirrored result.

use vstd::prelude::*;

use crate::ast::compound_view;
use crate::ast::structuralized;
use crate::ast::Structuralize;
use crate::ast::lemma_terms_view;
use crate::ast::term_view;
use crate::ast::terms_view;
use crate::ast::Compound;
use crate::ast::CompoundV;
use crate::ast::Term;
use crate::ast::TermV;
use crate::cells::FunctorV;
use crate::cells::Register;
use crate::machine::InstrV;
use crate::machine::Instruction;
use crate::machine::MachineError;

verus! {

/// The key a term is filed under in the compiler's maps: an atom is
/// the same key as the nullary compound of its name, so that an atom
/// argument and its structural form share one register.
pub open spec fn norm_key(t: TermV) -> TermV {
    match t {
        TermV::Atom(name) => TermV::Compound(
            CompoundV { name: name, arity: 0, args: Seq::empty() },
        ),
        _ => t,
    }
}

/// The key of an executable term.
pub open spec fn tkey(t: &Term) -> TermV {
    norm_key(term_view(t))
}

/// View of the register map: each pair keyed by its normalized view.
pub open spec fn map_view(m: Seq<(Term, Register)>) -> Seq<(TermV, Register)> {
    m.map_values(|p: (Term, Register)| (tkey(&p.0), p.1))
}

/// View of the seen set.
pub open spec fn seen_view(s: Seq<Term>) -> Seq<TermV> {
    s.map_values(|t: Term| tkey(&t))
}

/// The register the map assigns to a key: the latest entry wins.
pub open spec fn term_lookup(m: Seq<(TermV, Register)>, k: TermV) -> Option<Register>
    decreases m.len(),
{
    if m.len() == 0 {
        None
    } else if m.last().0 == k {
        Some(m.last().1)
    } else {
        term_lookup(m.drop_last(), k)
    }
}

/// Whether a key has been seen.
pub open spec fn seen_has_v(s: Seq<TermV>, k: TermV) -> bool {
    exists|i: int| 0 <= i < s.len() && s[i] == k
}

/// A later entry for a different key does not change a lookup.
pub proof fn lemma_lookup_push(m: Seq<(TermV, Register)>, k: TermV, p: (TermV, Register))
    ensures
        p.0 == k ==> term_lookup(m.push(p), k) == Some(p.1),
        p.0 != k ==> term_lookup(m.push(p), k) == term_lookup(m, k),
{
    assert(m.push(p).drop_last() =~= m);
}

/// Whether two terms are filed under the same key.
pub fn term_key_eq(a: &Term, b: &Term) -> (r: bool)
    ensures
        r == (tkey(a) == tkey(b)),
{
    match (a, b) {
        (Term::Atom(x), Term::Atom(y)) => x.0 == y.0,
        (Term::Var(x), Term::Var(y)) => x.0 == y.0,
        (Term::Compound(c), Term::Compound(d)) => crate::ast::compound_eq(c, d),
        (Term::Atom(x), Term::Compound(d)) => {
            proof {
                lemma_terms_view(d.args@);
                if d.args@.len() == 0 {
                    assert(terms_view(d.args@) =~= Seq::<TermV>::empty());
                }
            }
            x.0 == d.name && d.arity == 0 && d.args.len() == 0
        },
        (Term::Compound(c), Term::Atom(y)) => {
            proof {
                lemma_terms_view(c.args@);
                if c.args@.len() == 0 {
                    assert(terms_view(c.args@) =~= Seq::<TermV>::empty());
                }
            }
            c.name == y.0 && c.arity == 0 && c.args.len() == 0
        },
        _ => false,
    }
}

/// Look a term up in the register map.
pub fn map_lookup(m: &Vec<(Term, Register)>, t: &Term) -> (r: Option<Register>)
    ensures
        r == term_lookup(map_view(m@), tkey(t)),
    decreases m@.len(),
{
    let ghost mv = map_view(m@);
    proof {
        assert(mv.take(mv.len() as int) =~= mv);
    }
    let mut i = m.len();
    while i > 0
        invariant
            i <= m@.len(),
            mv == map_view(m@),
            mv.len() == m@.len(),
            term_lookup(mv, tkey(t)) == term_lookup(mv.take(i as int), tkey(t)),
        decreases i,
    {
        i = i - 1;
        proof {
            assert(mv.take(i + 1).last() == mv[i as int]);
            assert(mv.take(i + 1).drop_last() =~= mv.take(i as int));
        }
        if term_key_eq(&m[i].0, t) {
            return Some(m[i].1);
        }
    }
    proof {
        assert(mv.take(0) =~= Seq::empty());
    }
    None
}

/// Whether a term has been seen.
pub fn seen_has(seen: &Vec<Term>, t: &Term) -> (r: bool)
    ensures
        r == seen_has_v(seen_view(seen@), tkey(t)),
{
    let ghost sv = seen_view(seen@);
    let n = seen.len();
    let mut i: usize = 0;
    while i < n
        invariant
            i <= n,
            n == seen@.len(),
            sv == seen_view(seen@),
            sv.len() == n,
            forall|j: int| 0 <= j < i ==> sv[j] != tkey(t),
        decreases n - i,
    {
        if term_key_eq(&seen[i], t) {
            proof {
                assert(sv[i as int] == tkey(t));
            }
            return true;
        }
        i = i + 1;
    }
    false
}

/// The compiler state one query-side pass threads along: the next
/// free temporary index, the register map, the seen set and the
/// instructions emitted so far.
#[verifier::ext_equal]
pub struct CompSt {
    pub x: int,
    pub m: Seq<(TermV, Register)>,
    pub seen: Seq<TermV>,
    pub instrs: Seq<InstrV>,
}

/// The temporary register with index `x`.
pub open spec fn xreg(x: int) -> Register {
    Register::X(x as usize)
}

/// The functor of a compound view.
pub open spec fn functor_of(c: CompoundV) -> FunctorV {
    FunctorV { name: c.name, arity: c.arity }
}

/// Assign a fresh temporary register to a key not yet in the map.
pub open spec fn assign_key(st: CompSt, k: TermV) -> CompSt {
    if term_lookup(st.m, k) is None {
        CompSt { x: st.x + 1, m: st.m.push((k, xreg(st.x))), ..st }
    } else {
        st
    }
}

/// Register-assignment pass over an argument list.
pub open spec fn assign_args(args: Seq<TermV>, i: int, st: CompSt) -> CompSt
    decreases args.len() - i,
{
    if i < 0 || i >= args.len() {
        st
    } else {
        assign_args(args, i + 1, assign_key(st, norm_key(args[i])))
    }
}

/// Emit `SetVariable` on the first occurrence of an argument,
/// `SetValue` on later occurrences.
pub open spec fn aq_emit_arg(st: CompSt, k: TermV) -> CompSt {
    if !seen_has_v(st.seen, k) {
        CompSt {
            instrs: st.instrs.push(InstrV::SetVariable(term_lookup(st.m, k).unwrap())),
            seen: st.seen.push(k),
            ..st
        }
    } else {
        CompSt { instrs: st.instrs.push(InstrV::SetValue(term_lookup(st.m, k).unwrap())), ..st }
    }
}

/// Emission pass over an argument list.
pub open spec fn aq_emit_args(args: Seq<TermV>, i: int, st: CompSt) -> CompSt
    decreases args.len() - i,
{
    if i < 0 || i >= args.len() {
        st
    } else {
        aq_emit_args(args, i + 1, aq_emit_arg(st, norm_key(args[i])))
    }
}

/// What visiting a nullary subterm does: emit its `PutStructure` and
/// mark it seen.
pub open spec fn aq_leaf(name: Seq<char>, st: CompSt) -> CompSt {
    let c = CompoundV { name: name, arity: 0, args: Seq::empty() };
    let st1 = assign_key(st, TermV::Compound(c));
    CompSt {
        instrs: st1.instrs.push(
            InstrV::PutStructure(
                functor_of(c),
                term_lookup(st1.m, TermV::Compound(c)).unwrap(),
            ),
        ),
        seen: st1.seen.push(TermV::Compound(c)),
        ..st1
    }
}

/// Query-side register allocation and emission for one compound
/// subterm: assign registers to the compound and its arguments, lay
/// out nested subterms depth-first, then emit the compound's
/// `PutStructure` followed by one `SetVariable`/`SetValue` per
/// argument.
pub open spec fn aq(c: CompoundV, st: CompSt) -> CompSt
    decreases c, 1int, 0int,
{
    let st1 = assign_key(st, TermV::Compound(c));
    let st2 = assign_args(c.args, 0, st1);
    let st3 = aq_args(c.args, 0, st2);
    let st4 = CompSt {
        instrs: st3.instrs.push(
            InstrV::PutStructure(
                functor_of(c),
                term_lookup(st3.m, TermV::Compound(c)).unwrap(),
            ),
        ),
        seen: st3.seen.push(TermV::Compound(c)),
        ..st3
    };
    aq_emit_args(c.args, 0, st4)
}

/// The depth-first visiting pass of `aq` over an argument list.
pub open spec fn aq_args(args: Seq<TermV>, i: int, st: CompSt) -> CompSt
    decreases args, 0int, args.len() - i,
{
    if i < 0 || i >= args.len() {
        st
    } else {
        let st1 = match args[i] {
            TermV::Compound(c) => aq(c, st),
            TermV::Atom(name) => aq_leaf(name, st),
            TermV::Var(_) => st,
        };
        aq_args(args, i + 1, st1)
    }
}

/// The temporary counter never moves backwards, and an existing map
/// binding is never changed, by any query-side pass.
pub proof fn lemma_aq_mono(c: CompoundV, st: CompSt)
    ensures
        aq(c, st).x >= st.x,
        forall|k: TermV|
            term_lookup(st.m, k) is Some ==> #[trigger] term_lookup(aq(c, st).m, k)
                == term_lookup(st.m, k),
    decreases c, 1int, 0int,
{
    let st1 = assign_key(st, TermV::Compound(c));
    lemma_assign_key_mono(st, TermV::Compound(c));
    lemma_assign_args_mono(c.args, 0, st1);
    let st2 = assign_args(c.args, 0, st1);
    lemma_aq_args_mono(c.args, 0, st2);
    let st3 = aq_args(c.args, 0, st2);
    let st4 = CompSt {
        instrs: st3.instrs.push(
            InstrV::PutStructure(
                functor_of(c),
                term_lookup(st3.m, TermV::Compound(c)).unwrap(),
            ),
        ),
        seen: st3.seen.push(TermV::Compound(c)),
        ..st3
    };
    lemma_aq_emit_keeps(c.args, 0, st4);
}

/// The emission pass touches only the instruction stream and the seen
/// set.
pub proof fn lemma_aq_emit_keeps(args: Seq<TermV>, i: int, st: CompSt)
    ensures
        aq_emit_args(args, i, st).x == st.x,
        aq_emit_args(args, i, st).m == st.m,
    decreases args.len() - i,
{
    if 0 <= i < args.len() {
        lemma_aq_emit_keeps(args, i + 1, aq_emit_arg(st, norm_key(args[i])));
    }
}

/// Monotonicity of `assign_key`.
pub proof fn lemma_assign_key_mono(st: CompSt, k0: TermV)
    ensures
        assign_key(st, k0).x >= st.x,
        forall|k: TermV|
            term_lookup(st.m, k) is Some ==> #[trigger] term_lookup(assign_key(st, k0).m, k)
                == term_lookup(st.m, k),
{
    if term_lookup(st.m, k0) is None {
        assert forall|k: TermV| term_lookup(st.m, k) is Some implies #[trigger] term_lookup(
            assign_key(st, k0).m,
            k,
        ) == term_lookup(st.m, k) by {
            lemma_lookup_push(st.m, k, (k0, xreg(st.x)));
        }
    }
}

/// Monotonicity of `assign_args`.
pub proof fn lemma_assign_args_mono(args: Seq<TermV>, i: int, st: CompSt)
    ensures
        assign_args(args, i, st).x >= st.x,
        forall|k: TermV|
            term_lookup(st.m, k) is Some ==> #[trigger] term_lookup(assign_args(args, i, st).m, k)
                == term_lookup(st.m, k),
    decreases args.len() - i,
{
    if 0 <= i < args.len() {
        lemma_assign_key_mono(st, norm_key(args[i]));
        lemma_assign_args_mono(args, i + 1, assign_key(st, norm_key(args[i])));
    }
}

/// Monotonicity of the visiting pass.
pub proof fn lemma_aq_args_mono(args: Seq<TermV>, i: int, st: CompSt)
    ensures
        aq_args(args, i, st).x >= st.x,
        forall|k: TermV|
            term_lookup(st.m, k) is Some ==> #[trigger] term_lookup(aq_args(args, i, st).m, k)
                == term_lookup(st.m, k),
    decreases args, 0int, args.len() - i,
{
    if 0 <= i < args.len() {
        let st1 = match args[i] {
            TermV::Compound(c) => aq(c, st),
            TermV::Atom(name) => aq_leaf(name, st),
            TermV::Var(_) => st,
        };
        match args[i] {
            TermV::Compound(c) => {
                lemma_aq_mono(c, st);
            },
            TermV::Atom(name) => {
                lemma_aq_leaf_mono(name, st);
            },
            TermV::Var(_) => {},
        }
        lemma_aq_args_mono(args, i + 1, st1);
    }
}

/// Monotonicity of the leaf step.
pub proof fn lemma_aq_leaf_mono(name: Seq<char>, st: CompSt)
    ensures
        aq_leaf(name, st).x >= st.x,
        forall|k: TermV|
            term_lookup(st.m, k) is Some ==> #[trigger] term_lookup(aq_leaf(name, st).m, k)
                == term_lookup(st.m, k),
{
    lemma_assign_key_mono(st, TermV::Compound(CompoundV {
        name: name,
        arity: 0,
        args: Seq::empty(),
    }));
}

/// The compiler state the four in/out parameters of the allocation
/// passes stand for.
pub open spec fn pack(
    x: usize,
    m: Seq<(Term, Register)>,
    seen: Seq<Term>,
    instrs: Seq<Instruction>,
) -> CompSt {
    CompSt {
        x: x as int,
        m: map_view(m),
        seen: seen_view(seen),
        instrs: instrs.map_values(|i: Instruction| i@),
    }
}

/// Assign a register to a term if it has none yet.
fn assign_term(t: &Term, x: &mut usize, m: &mut Vec<(Term, Register)>) -> (r: Result<
    (),
    MachineError,
>)
    ensures
        ({
            let st0 = CompSt {
                x: *old(x) as int,
                m: map_view(old(m)@),
                seen: Seq::empty(),
                instrs: Seq::empty(),
            };
            let st1 = assign_key(st0, tkey(t));
            match r {
                Ok(_) => st1.x <= usize::MAX && *final(x) == st1.x && map_view(final(m)@)
                    == st1.m && term_lookup(map_view(final(m)@), tkey(t)) is Some,
                Err(e) => e == MachineError::InvalidCell && st1.x > usize::MAX,
            }
        }),
{
    let ghost m0 = map_view(m@);
    match map_lookup(m, t) {
        Some(_) => Ok(()),
        None => {
            if *x == usize::MAX {
                return Err(MachineError::InvalidCell);
            }
            let t2 = t.clone();
            m.push((t2, Register::X(*x)));
            *x = *x + 1;
            proof {
                assert(map_view(m@) =~= m0.push((tkey(t), xreg(*old(x) as int))));
                lemma_lookup_push(m0, tkey(t), (tkey(t), xreg(*old(x) as int)));
            }
            Ok(())
        },
    }
}

/// Visit a nullary subterm on the query side: make sure it has a
/// register, then emit its `PutStructure` and mark it seen.
fn put_leaf(
    a: &crate::ast::Atom,
    x: &mut usize,
    m: &mut Vec<(Term, Register)>,
    seen: &mut Vec<Term>,
    instructions: &mut Vec<Instruction>,
) -> (r: Result<(), MachineError>)
    ensures
        ({
            let st0 = pack(*old(x), old(m)@, old(seen)@, old(instructions)@);
            let stf = aq_leaf(a.0@, st0);
            match r {
                Ok(_) => stf.x <= usize::MAX && pack(
                    *final(x),
                    final(m)@,
                    final(seen)@,
                    final(instructions)@,
                ) == stf,
                Err(e) => e == MachineError::InvalidCell && stf.x > usize::MAX,
            }
        }),
{
    let ghost st0 = pack(*x, m@, seen@, instructions@);
    let term = Term::Atom(a.clone());
    proof {
        assert(tkey(&term) == TermV::Compound(CompoundV {
            name: a.0@,
            arity: 0,
            args: Seq::empty(),
        }));
    }
    match assign_term(&term, x, m) {
        Ok(_) => {},
        Err(e) => {
            proof {
                lemma_aq_leaf_mono(a.0@, st0);
            }
            return Err(e);
        },
    }
    let reg = match map_lookup(m, &term) {
        Some(r) => r,
        None => {
            proof {
                assert(false);
            }
            return Err(MachineError::InvalidCell);
        },
    };
    let ghost st1 = assign_key(st0, tkey(&term));
    let f = crate::cells::Functor(a.0.clone(), 0);
    instructions.push(Instruction::PutStructure(f, reg));
    seen.push(term);
    proof {
        assert(pack(*x, m@, seen@, instructions@) =~= aq_leaf(a.0@, st0));
    }
    Ok(())
}

/// Query-side register allocation and instruction emission for a
/// compound subterm, depth-first, deepest subterm first: every
/// subterm gets a temporary register, nested subterms are laid out
/// before their parent, and each compound emits `PutStructure`
/// followed by `SetVariable`/`SetValue` per argument.
#[verifier::loop_isolation(false)]
pub fn allocate_query_registers(
    compound: &Compound,
    x: &mut usize,
    m: &mut Vec<(Term, Register)>,
    seen: &mut Vec<Term>,
    instructions: &mut Vec<Instruction>,
) -> (r: Result<(), MachineError>)
    ensures
        ({
            let st0 = pack(*old(x), old(m)@, old(seen)@, old(instructions)@);
            let stf = aq(compound@, st0);
            match r {
                Ok(_) => stf.x <= usize::MAX && pack(
                    *final(x),
                    final(m)@,
                    final(seen)@,
                    final(instructions)@,
                ) == stf,
                Err(e) => e == MachineError::InvalidCell && stf.x > usize::MAX,
            }
        }),
    decreases compound,
{
    let ghost st0 = pack(*x, m@, seen@, instructions@);
    let ghost cv = compound@;
    let ghost argsv = cv.args;
    proof {
        lemma_terms_view(compound.args@);
    }
    let term = Term::Compound(compound.clone());
    match assign_term(&term, x, m) {
        Ok(_) => {},
        Err(e) => {
            proof {
                assert(assign_key(st0, TermV::Compound(cv)).x > usize::MAX);
                lemma_aq_err_chain(cv, st0);
            }
            return Err(e);
        },
    }
    let ghost st1 = assign_key(st0, TermV::Compound(cv));
    proof {
        assert(pack(*x, m@, seen@, instructions@) =~= st1);
    }
    let n = compound.args.len();
    let mut i: usize = 0;
    while i < n
        invariant
            i <= n,
            n == compound.args@.len(),
            argsv.len() == n,
            forall|j: int| 0 <= j < n ==> argsv[j] == term_view(&compound.args@[j]),
            st1 == assign_key(st0, TermV::Compound(cv)),
            pack(*x, m@, seen@, instructions@).x <= usize::MAX,
            assign_args(argsv, i as int, pack(*x, m@, seen@, instructions@)) == assign_args(
                argsv,
                0,
                st1,
            ),
            term_lookup(map_view(m@), TermV::Compound(cv)) is Some,
            forall|j: int|
                0 <= j < i ==> #[trigger] term_lookup(map_view(m@), norm_key(argsv[j])) is Some,
        decreases n - i,
    {
        let ghost cur = pack(*x, m@, seen@, instructions@);
        proof {
            assert(tkey(&compound.args@[i as int]) == norm_key(argsv[i as int]));
        }
        match assign_term(&compound.args[i], x, m) {
            Ok(_) => {},
            Err(e) => {
                proof {
                    assert(assign_key(cur, norm_key(argsv[i as int])).x > usize::MAX);
                    lemma_assign_args_mono(argsv, i as int + 1, assign_key(
                        cur,
                        norm_key(argsv[i as int]),
                    ));
                    assert(assign_args(argsv, 0, st1).x > usize::MAX);
                    lemma_aq_mid_err(cv, st0, assign_args(argsv, 0, st1));
                }
                return Err(e);
            },
        }
        proof {
            let nxt = pack(*x, m@, seen@, instructions@);
            assert(nxt =~= assign_key(cur, norm_key(argsv[i as int])));
            lemma_assign_key_mono(cur, norm_key(argsv[i as int]));
        }
        i = i + 1;
    }
    let ghost st2 = assign_args(argsv, 0, st1);
    proof {
        assert(pack(*x, m@, seen@, instructions@) =~= st2);
    }
    let mut i: usize = 0;
    while i < n
        invariant
            i <= n,
            n == compound.args@.len(),
            argsv.len() == n,
            forall|j: int| 0 <= j < n ==> argsv[j] == term_view(&compound.args@[j]),
            st2 == assign_args(argsv, 0, assign_key(st0, TermV::Compound(cv))),
            pack(*x, m@, seen@, instructions@).x <= usize::MAX,
            aq_args(argsv, i as int, pack(*x, m@, seen@, instructions@)) == aq_args(
                argsv,
                0,
                st2,
            ),
            term_lookup(map_view(m@), TermV::Compound(cv)) is Some,
            forall|j: int|
                0 <= j < n ==> #[trigger] term_lookup(map_view(m@), norm_key(argsv[j])) is Some,
        decreases n - i,
    {
        let ghost cur = pack(*x, m@, seen@, instructions@);
        match &compound.args[i] {
            Term::Compound(c) => {
                match allocate_query_registers(c, x, m, seen, instructions) {
                    Ok(_) => {},
                    Err(e) => {
                        proof {
                            lemma_aq_args_mono(argsv, i as int + 1, aq(c@, cur));
                            lemma_aq_tail_err(cv, st0, st2, aq_args(argsv, 0, st2));
                        }
                        return Err(e);
                    },
                }
                proof {
                    lemma_aq_mono(c@, cur);
                }
            },
            Term::Atom(a) => {
                match put_leaf(a, x, m, seen, instructions) {
                    Ok(_) => {},
                    Err(e) => {
                        proof {
                            lemma_aq_args_mono(argsv, i as int + 1, aq_leaf(a.0@, cur));
                            lemma_aq_tail_err(cv, st0, st2, aq_args(argsv, 0, st2));
                        }
                        return Err(e);
                    },
                }
                proof {
                    lemma_aq_leaf_mono(a.0@, cur);
                }
            },
            Term::Var(_) => {},
        }
        i = i + 1;
    }
    let ghost st3 = aq_args(argsv, 0, st2);
    proof {
        assert(pack(*x, m@, seen@, instructions@) =~= st3);
    }
    let term2 = Term::Compound(compound.clone());
    let reg = match map_lookup(m, &term2) {
        Some(r) => r,
        None => {
            proof {
                assert(false);
            }
            return Err(MachineError::InvalidCell);
        },
    };
    let f = crate::cells::Functor(compound.name.clone(), compound.arity);
    instructions.push(Instruction::PutStructure(f, reg));
    seen.push(term2);
    let ghost st4 = CompSt {
        instrs: st3.instrs.push(
            InstrV::PutStructure(
                functor_of(cv),
                term_lookup(st3.m, TermV::Compound(cv)).unwrap(),
            ),
        ),
        seen: st3.seen.push(TermV::Compound(cv)),
        ..st3
    };
    proof {
        assert(pack(*x, m@, seen@, instructions@) =~= st4);
    }
    let mut i: usize = 0;
    while i < n
        invariant
            i <= n,
            n == compound.args@.len(),
            argsv.len() == n,
            forall|j: int| 0 <= j < n ==> argsv[j] == term_view(&compound.args@[j]),
            aq(cv, st0) == aq_emit_args(argsv, 0, st4),
            pack(*x, m@, seen@, instructions@).x <= usize::MAX,
            aq_emit_args(argsv, i as int, pack(*x, m@, seen@, instructions@)) == aq_emit_args(
                argsv,
                0,
                st4,
            ),
            forall|j: int|
                0 <= j < n ==> #[trigger] term_lookup(map_view(m@), norm_key(argsv[j])) is Some,
        decreases n - i,
    {
        let ghost cur = pack(*x, m@, seen@, instructions@);
        let reg = match map_lookup(m, &compound.args[i]) {
            Some(r) => r,
            None => {
                proof {
                    assert(false);
                }
                return Err(MachineError::InvalidCell);
            },
        };
        if !seen_has(seen, &compound.args[i]) {
            instructions.push(Instruction::SetVariable(reg));
            let t2 = compound.args[i].clone();
            seen.push(t2);
        } else {
            instructions.push(Instruction::SetValue(reg));
        }
        i = i + 1;
        proof {
            assert(pack(*x, m@, seen@, instructions@) =~= aq_emit_arg(
                cur,
                norm_key(argsv[i - 1]),
            ));
        }
    }
    proof {
        assert(pack(*x, m@, seen@, instructions@) == aq(cv, st0));
        lemma_aq_mono(cv, st0);
    }
    Ok(())
}

/// The compiler state the program-side pass threads along: besides
/// the counter, map and seen set it fills two instruction streams —
/// the top-level argument stream and the nested stream appended after
/// it.
#[verifier::ext_equal]
pub struct FactSt {
    pub x: int,
    pub m: Seq<(TermV, Register)>,
    pub seen: Seq<TermV>,
    pub argi: Seq<InstrV>,
    pub insti: Seq<InstrV>,
}

/// Assign a fresh temporary register to a key not yet in the map.
pub open spec fn assign_key_f(st: FactSt, k: TermV) -> FactSt {
    if term_lookup(st.m, k) is None {
        FactSt { x: st.x + 1, m: st.m.push((k, xreg(st.x))), ..st }
    } else {
        st
    }
}

/// Register-assignment pass over an argument list.
pub open spec fn assign_args_f(args: Seq<TermV>, i: int, st: FactSt) -> FactSt
    decreases args.len() - i,
{
    if i < 0 || i >= args.len() {
        st
    } else {
        assign_args_f(args, i + 1, assign_key_f(st, norm_key(args[i])))
    }
}

/// Push an instruction on the chosen stream.
pub open spec fn emit_f(st: FactSt, root: bool, ins: InstrV) -> FactSt {
    if root {
        FactSt { argi: st.argi.push(ins), ..st }
    } else {
        FactSt { insti: st.insti.push(ins), ..st }
    }
}

/// Emit `UnifyVariable` on the first occurrence of an argument,
/// `UnifyValue` on later occurrences.
pub open spec fn ap_emit_arg(st: FactSt, root: bool, k: TermV) -> FactSt {
    if !seen_has_v(st.seen, k) {
        FactSt {
            seen: st.seen.push(k),
            ..emit_f(st, root, InstrV::UnifyVariable(term_lookup(st.m, k).unwrap()))
        }
    } else {
        emit_f(st, root, InstrV::UnifyValue(term_lookup(st.m, k).unwrap()))
    }
}

/// Emission pass over an argument list.
pub open spec fn ap_emit_args(args: Seq<TermV>, i: int, root: bool, st: FactSt) -> FactSt
    decreases args.len() - i,
{
    if i < 0 || i >= args.len() {
        st
    } else {
        ap_emit_args(args, i + 1, root, ap_emit_arg(st, root, norm_key(args[i])))
    }
}

/// What visiting a nullary subterm does on the program side.
pub open spec fn ap_leaf(name: Seq<char>, st: FactSt) -> FactSt {
    let c = CompoundV { name: name, arity: 0, args: Seq::empty() };
    let st1 = assign_key_f(st, TermV::Compound(c));
    FactSt {
        seen: st1.seen.push(TermV::Compound(c)),
        ..emit_f(
            st1,
            false,
            InstrV::GetStructure(
                functor_of(c),
                term_lookup(st1.m, TermV::Compound(c)).unwrap(),
            ),
        )
    }
}

/// Program-side register allocation and emission for one compound
/// subterm: assign registers, emit the compound's `GetStructure`
/// followed by one `UnifyVariable`/`UnifyValue` per argument, then
/// visit nested subterms.  The top-level argument (`root`) emits into
/// the argument stream, nested subterms into the trailing stream.
pub open spec fn ap(root: bool, c: CompoundV, st: FactSt) -> FactSt
    decreases c, 1int, 0int,
{
    let st1 = assign_key_f(st, TermV::Compound(c));
    let st2 = assign_args_f(c.args, 0, st1);
    let st3 = FactSt {
        seen: st2.seen.push(TermV::Compound(c)),
        ..emit_f(
            st2,
            root,
            InstrV::GetStructure(
                functor_of(c),
                term_lookup(st2.m, TermV::Compound(c)).unwrap(),
            ),
        )
    };
    let st4 = ap_emit_args(c.args, 0, root, st3);
    ap_rec_args(c.args, 0, st4)
}

/// The visiting pass of `ap` over an argument list.
pub open spec fn ap_rec_args(args: Seq<TermV>, i: int, st: FactSt) -> FactSt
    decreases args, 0int, args.len() - i,
{
    if i < 0 || i >= args.len() {
        st
    } else {
        let st1 = match args[i] {
            TermV::Compound(c) => ap(false, c, st),
            TermV::Atom(name) => ap_leaf(name, st),
            TermV::Var(_) => st,
        };
        ap_rec_args(args, i + 1, st1)
    }
}

/// Monotonicity of `assign_key_f`.
pub proof fn lemma_assign_key_f_mono(st: FactSt, k0: TermV)
    ensures
        assign_key_f(st, k0).x >= st.x,
        forall|k: TermV|
            term_lookup(st.m, k) is Some ==> #[trigger] term_lookup(assign_key_f(st, k0).m, k)
                == term_lookup(st.m, k),
{
    if term_lookup(st.m, k0) is None {
        assert forall|k: TermV| term_lookup(st.m, k) is Some implies #[trigger] term_lookup(
            assign_key_f(st, k0).m,
            k,
        ) == term_lookup(st.m, k) by {
            lemma_lookup_push(st.m, k, (k0, xreg(st.x)));
        }
    }
}

/// Monotonicity of `assign_args_f`.
pub proof fn lemma_assign_args_f_mono(args: Seq<TermV>, i: int, st: FactSt)
    ensures
        assign_args_f(args, i, st).x >= st.x,
        forall|k: TermV|
            term_lookup(st.m, k) is Some ==> #[trigger] term_lookup(
                assign_args_f(args, i, st).m,
                k,
            ) == term_lookup(st.m, k),
    decreases args.len() - i,
{
    if 0 <= i < args.len() {
        lemma_assign_key_f_mono(st, norm_key(args[i]));
        lemma_assign_args_f_mono(args, i + 1, assign_key_f(st, norm_key(args[i])));
    }
}

/// The emission pass touches only the streams and the seen set.
pub proof fn lemma_ap_emit_keeps(args: Seq<TermV>, i: int, root: bool, st: FactSt)
    ensures
        ap_emit_args(args, i, root, st).x == st.x,
        ap_emit_args(args, i, root, st).m == st.m,
    decreases args.len() - i,
{
    if 0 <= i < args.len() {
        lemma_ap_emit_keeps(args, i + 1, root, ap_emit_arg(st, root, norm_key(args[i])));
    }
}

/// Monotonicity of the leaf step.
pub proof fn lemma_ap_leaf_mono(name: Seq<char>, st: FactSt)
    ensures
        ap_leaf(name, st).x >= st.x,
        forall|k: TermV|
            term_lookup(st.m, k) is Some ==> #[trigger] term_lookup(ap_leaf(name, st).m, k)
                == term_lookup(st.m, k),
{
    lemma_assign_key_f_mono(st, TermV::Compound(CompoundV {
        name: name,
        arity: 0,
        args: Seq::empty(),
    }));
}

/// Monotonicity of the whole program-side visit.
pub proof fn lemma_ap_mono(root: bool, c: CompoundV, st: FactSt)
    ensures
        ap(root, c, st).x >= st.x,
        forall|k: TermV|
            term_lookup(st.m, k) is Some ==> #[trigger] term_lookup(ap(root, c, st).m, k)
                == term_lookup(st.m, k),
    decreases c, 1int, 0int,
{
    let st1 = assign_key_f(st, TermV::Compound(c));
    lemma_assign_key_f_mono(st, TermV::Compound(c));
    lemma_assign_args_f_mono(c.args, 0, st1);
    let st2 = assign_args_f(c.args, 0, st1);
    let st3 = FactSt {
        seen: st2.seen.push(TermV::Compound(c)),
        ..emit_f(
            st2,
            root,
            InstrV::GetStructure(
                functor_of(c),
                term_lookup(st2.m, TermV::Compound(c)).unwrap(),
            ),
        )
    };
    lemma_ap_emit_keeps(c.args, 0, root, st3);
    lemma_ap_rec_args_mono(c.args, 0, ap_emit_args(c.args, 0, root, st3));
}

/// Monotonicity of the visiting pass.
pub proof fn lemma_ap_rec_args_mono(args: Seq<TermV>, i: int, st: FactSt)
    ensures
        ap_rec_args(args, i, st).x >= st.x,
        forall|k: TermV|
            term_lookup(st.m, k) is Some ==> #[trigger] term_lookup(ap_rec_args(args, i, st).m, k)
                == term_lookup(st.m, k),
    decreases args, 0int, args.len() - i,
{
    if 0 <= i < args.len() {
        let st1 = match args[i] {
            TermV::Compound(c) => ap(false, c, st),
            TermV::Atom(name) => ap_leaf(name, st),
            TermV::Var(_) => st,
        };
        match args[i] {
            TermV::Compound(c) => {
                lemma_ap_mono(false, c, st);
            },
            TermV::Atom(name) => {
                lemma_ap_leaf_mono(name, st);
            },
            TermV::Var(_) => {},
        }
        lemma_ap_rec_args_mono(args, i + 1, st1);
    }
}

/// The program-side compiler state the five in/out parameters stand
/// for.
pub open spec fn pack_f(
    x: usize,
    m: Seq<(Term, Register)>,
    seen: Seq<Term>,
    argi: Seq<Instruction>,
    insti: Seq<Instruction>,
) -> FactSt {
    FactSt {
        x: x as int,
        m: map_view(m),
        seen: seen_view(seen),
        argi: argi.map_values(|i: Instruction| i@),
        insti: insti.map_values(|i: Instruction| i@),
    }
}

/// On an error in the first assignment step the final counter is
/// already past the limit.
proof fn lemma_aq_err_chain(c: CompoundV, st0: CompSt)
    requires
        assign_key(st0, TermV::Compound(c)).x > usize::MAX,
    ensures
        aq(c, st0).x > usize::MAX,
{
    let st1 = assign_key(st0, TermV::Compound(c));
    lemma_assign_args_mono(c.args, 0, st1);
    let st2 = assign_args(c.args, 0, st1);
    lemma_aq_args_mono(c.args, 0, st2);
    lemma_aq_emit_keeps(c.args, 0, CompSt {
        instrs: aq_args(c.args, 0, st2).instrs.push(
            InstrV::PutStructure(
                functor_of(c),
                term_lookup(aq_args(c.args, 0, st2).m, TermV::Compound(c)).unwrap(),
            ),
        ),
        seen: aq_args(c.args, 0, st2).seen.push(TermV::Compound(c)),
        ..aq_args(c.args, 0, st2)
    });
}

/// If the assignment pass pushed the counter past the limit, so does
/// the whole visit.
proof fn lemma_aq_mid_err(c: CompoundV, st0: CompSt, st2: CompSt)
    requires
        st2 == assign_args(c.args, 0, assign_key(st0, TermV::Compound(c))),
        st2.x > usize::MAX,
    ensures
        aq(c, st0).x > usize::MAX,
{
    lemma_aq_args_mono(c.args, 0, st2);
    lemma_aq_emit_keeps(c.args, 0, CompSt {
        instrs: aq_args(c.args, 0, st2).instrs.push(
            InstrV::PutStructure(
                functor_of(c),
                term_lookup(aq_args(c.args, 0, st2).m, TermV::Compound(c)).unwrap(),
            ),
        ),
        seen: aq_args(c.args, 0, st2).seen.push(TermV::Compound(c)),
        ..aq_args(c.args, 0, st2)
    });
}

/// If the visiting pass pushed the counter past the limit, so does
/// the whole visit.
proof fn lemma_aq_tail_err(c: CompoundV, st0: CompSt, st2: CompSt, st3: CompSt)
    requires
        st2 == assign_args(c.args, 0, assign_key(st0, TermV::Compound(c))),
        st3 == aq_args(c.args, 0, st2),
        st3.x > usize::MAX,
    ensures
        aq(c, st0).x > usize::MAX,
{
    lemma_aq_emit_keeps(c.args, 0, CompSt {
        instrs: st3.instrs.push(
            InstrV::PutStructure(
                functor_of(c),
                term_lookup(st3.m, TermV::Compound(c)).unwrap(),
            ),
        ),
        seen: st3.seen.push(TermV::Compound(c)),
        ..st3
    });
}

/// If a prefix of the program-side visit pushed the counter past the
/// limit, so does the whole visit.
proof fn lemma_ap_err_after_assign(root: bool, c: CompoundV, st0: FactSt, stk: FactSt)
    requires
        assign_args_f(c.args, 0, assign_key_f(st0, TermV::Compound(c))).x >= stk.x,
        stk.x > usize::MAX,
    ensures
        ap(root, c, st0).x > usize::MAX,
{
    let st1 = assign_key_f(st0, TermV::Compound(c));
    let st2 = assign_args_f(c.args, 0, st1);
    let st3 = FactSt {
        seen: st2.seen.push(TermV::Compound(c)),
        ..emit_f(
            st2,
            root,
            InstrV::GetStructure(
                functor_of(c),
                term_lookup(st2.m, TermV::Compound(c)).unwrap(),
            ),
        )
    };
    lemma_ap_emit_keeps(c.args, 0, root, st3);
    lemma_ap_rec_args_mono(c.args, 0, ap_emit_args(c.args, 0, root, st3));
}

/// Visit a nullary subterm on the program side.
fn get_leaf(
    a: &crate::ast::Atom,
    x: &mut usize,
    m: &mut Vec<(Term, Register)>,
    seen: &mut Vec<Term>,
    instructions: &mut Vec<Instruction>,
) -> (r: Result<(), MachineError>)
    ensures
        ({
            let st0 = pack_f(*old(x), old(m)@, old(seen)@, Seq::empty(), old(instructions)@);
            let stf = ap_leaf(a.0@, st0);
            match r {
                Ok(_) => stf.x <= usize::MAX && pack_f(
                    *final(x),
                    final(m)@,
                    final(seen)@,
                    Seq::empty(),
                    final(instructions)@,
                ) == stf,
                Err(e) => e == MachineError::InvalidCell && stf.x > usize::MAX,
            }
        }),
{
    let ghost st0 = pack_f(*x, m@, seen@, Seq::empty(), instructions@);
    let term = Term::Atom(a.clone());
    proof {
        assert(tkey(&term) == TermV::Compound(CompoundV {
            name: a.0@,
            arity: 0,
            args: Seq::empty(),
        }));
    }
    match assign_term(&term, x, m) {
        Ok(_) => {},
        Err(e) => {
            proof {
                lemma_ap_leaf_mono(a.0@, st0);
            }
            return Err(e);
        },
    }
    let reg = match map_lookup(m, &term) {
        Some(r) => r,
        None => {
            proof {
                assert(false);
            }
            return Err(MachineError::InvalidCell);
        },
    };
    let f = crate::cells::Functor(a.0.clone(), 0);
    instructions.push(Instruction::GetStructure(f, reg));
    seen.push(term);
    proof {
        assert(pack_f(*x, m@, seen@, Seq::empty(), instructions@) =~= ap_leaf(a.0@, st0));
    }
    Ok(())
}

/// Program-side register allocation and instruction emission for a
/// compound subterm: the compound's `GetStructure` and its argument
/// instructions come first, nested subterms are decomposed afterwards
/// in the trailing stream.
#[verifier::loop_isolation(false)]
pub fn allocate_program_registers(
    root: bool,
    compound: &Compound,
    x: &mut usize,
    m: &mut Vec<(Term, Register)>,
    seen: &mut Vec<Term>,
    arg_instructions: &mut Vec<Instruction>,
    instructions: &mut Vec<Instruction>,
) -> (r: Result<(), MachineError>)
    ensures
        ({
            let st0 = pack_f(
                *old(x),
                old(m)@,
                old(seen)@,
                old(arg_instructions)@,
                old(instructions)@,
            );
            let stf = ap(root, compound@, st0);
            match r {
                Ok(_) => stf.x <= usize::MAX && pack_f(
                    *final(x),
                    final(m)@,
                    final(seen)@,
                    final(arg_instructions)@,
                    final(instructions)@,
                ) == stf,
                Err(e) => e == MachineError::InvalidCell && stf.x > usize::MAX,
            }
        }),
    decreases compound,
{
    let ghost st0 = pack_f(*x, m@, seen@, arg_instructions@, instructions@);
    let ghost cv = compound@;
    let ghost argsv = cv.args;
    proof {
        lemma_terms_view(compound.args@);
    }
    let term = Term::Compound(compound.clone());
    match assign_term(&term, x, m) {
        Ok(_) => {},
        Err(e) => {
            proof {
                let st1 = assign_key_f(st0, TermV::Compound(cv));
                lemma_assign_args_f_mono(argsv, 0, st1);
                lemma_ap_err_after_assign(root, cv, st0, st1);
            }
            return Err(e);
        },
    }
    let ghost st1 = assign_key_f(st0, TermV::Compound(cv));
    proof {
        assert(pack_f(*x, m@, seen@, arg_instructions@, instructions@) =~= st1);
    }
    let n = compound.args.len();
    let mut i: usize = 0;
    while i < n
        invariant
            i <= n,
            n == compound.args@.len(),
            argsv.len() == n,
            forall|j: int| 0 <= j < n ==> argsv[j] == term_view(&compound.args@[j]),
            pack_f(*x, m@, seen@, arg_instructions@, instructions@).x <= usize::MAX,
            assign_args_f(
                argsv,
                i as int,
                pack_f(*x, m@, seen@, arg_instructions@, instructions@),
            ) == assign_args_f(argsv, 0, st1),
            term_lookup(map_view(m@), TermV::Compound(cv)) is Some,
            forall|j: int|
                0 <= j < i ==> #[trigger] term_lookup(map_view(m@), norm_key(argsv[j])) is Some,
        decreases n - i,
    {
        let ghost cur = pack_f(*x, m@, seen@, arg_instructions@, instructions@);
        proof {
            assert(tkey(&compound.args@[i as int]) == norm_key(argsv[i as int]));
        }
        match assign_term(&compound.args[i], x, m) {
            Ok(_) => {},
            Err(e) => {
                proof {
                    let bad = assign_key_f(cur, norm_key(argsv[i as int]));
                    assert(bad.x > usize::MAX);
                    lemma_assign_args_f_mono(argsv, i as int + 1, bad);
                    lemma_ap_err_after_assign(root, cv, st0, assign_args_f(argsv, 0, st1));
                }
                return Err(e);
            },
        }
        proof {
            let nxt = pack_f(*x, m@, seen@, arg_instructions@, instructions@);
            assert(nxt =~= assign_key_f(cur, norm_key(argsv[i as int])));
            lemma_assign_key_f_mono(cur, norm_key(argsv[i as int]));
        }
        i = i + 1;
    }
    let ghost st2 = assign_args_f(argsv, 0, st1);
    proof {
        assert(pack_f(*x, m@, seen@, arg_instructions@, instructions@) =~= st2);
    }
    let term2 = Term::Compound(compound.clone());
    let reg = match map_lookup(m, &term2) {
        Some(r) => r,
        None => {
            proof {
                assert(false);
            }
            return Err(MachineError::InvalidCell);
        },
    };
    let f = crate::cells::Functor(compound.name.clone(), compound.arity);
    if root {
        arg_instructions.push(Instruction::GetStructure(f, reg));
    } else {
        instructions.push(Instruction::GetStructure(f, reg));
    }
    seen.push(term2);
    let ghost st3 = FactSt {
        seen: st2.seen.push(TermV::Compound(cv)),
        ..emit_f(
            st2,
            root,
            InstrV::GetStructure(
                functor_of(cv),
                term_lookup(st2.m, TermV::Compound(cv)).unwrap(),
            ),
        )
    };
    proof {
        assert(pack_f(*x, m@, seen@, arg_instructions@, instructions@) =~= st3);
    }
    let mut i: usize = 0;
    while i < n
        invariant
            i <= n,
            n == compound.args@.len(),
            argsv.len() == n,
            forall|j: int| 0 <= j < n ==> argsv[j] == term_view(&compound.args@[j]),
            pack_f(*x, m@, seen@, arg_instructions@, instructions@).x <= usize::MAX,
            ap_emit_args(
                argsv,
                i as int,
                root,
                pack_f(*x, m@, seen@, arg_instructions@, instructions@),
            ) == ap_emit_args(argsv, 0, root, st3),
            forall|j: int|
                0 <= j < n ==> #[trigger] term_lookup(map_view(m@), norm_key(argsv[j])) is Some,
            term_lookup(map_view(m@), TermV::Compound(cv)) is Some,
            map_view(m@) == st3.m,
        decreases n - i,
    {
        let ghost cur = pack_f(*x, m@, seen@, arg_instructions@, instructions@);
        let reg = match map_lookup(m, &compound.args[i]) {
            Some(r) => r,
            None => {
                proof {
                    assert(false);
                }
                return Err(MachineError::InvalidCell);
            },
        };
        if !seen_has(seen, &compound.args[i]) {
            if root {
                arg_instructions.push(Instruction::UnifyVariable(reg));
            } else {
                instructions.push(Instruction::UnifyVariable(reg));
            }
            let t2 = compound.args[i].clone();
            seen.push(t2);
        } else {
            if root {
                arg_instructions.push(Instruction::UnifyValue(reg));
            } else {
                instructions.push(Instruction::UnifyValue(reg));
            }
        }
        i = i + 1;
        proof {
            assert(pack_f(*x, m@, seen@, arg_instructions@, instructions@) =~= ap_emit_arg(
                cur,
                root,
                norm_key(argsv[i - 1]),
            ));
        }
    }
    let ghost st4 = ap_emit_args(argsv, 0, root, st3);
    proof {
        assert(pack_f(*x, m@, seen@, arg_instructions@, instructions@) =~= st4);
    }
    let mut i: usize = 0;
    while i < n
        invariant
            i <= n,
            n == compound.args@.len(),
            argsv.len() == n,
            forall|j: int| 0 <= j < n ==> argsv[j] == term_view(&compound.args@[j]),
            ap(root, cv, st0) == ap_rec_args(argsv, 0, st4),
            pack_f(*x, m@, seen@, arg_instructions@, instructions@).x <= usize::MAX,
            ap_rec_args(
                argsv,
                i as int,
                pack_f(*x, m@, seen@, arg_instructions@, instructions@),
            ) == ap_rec_args(argsv, 0, st4),
        decreases n - i,
    {
        let ghost cur = pack_f(*x, m@, seen@, arg_instructions@, instructions@);
        match &compound.args[i] {
            Term::Compound(c) => {
                match allocate_program_registers(false, c, x, m, seen, arg_instructions,
                    instructions) {
                    Ok(_) => {},
                    Err(e) => {
                        proof {
                            lemma_ap_rec_args_mono(argsv, i as int + 1, ap(false, c@, cur));
                        }
                        return Err(e);
                    },
                }
                proof {
                    lemma_ap_mono(false, c@, cur);
                }
            },
            Term::Atom(a) => {
                let ghost argi0 = arg_instructions@;
                match get_leaf(a, x, m, seen, instructions) {
                    Ok(_) => {},
                    Err(e) => {
                        proof {
                            lemma_ap_rec_args_mono(argsv, i as int + 1, ap_leaf(a.0@, cur));
                        }
                        return Err(e);
                    },
                }
                proof {
                    lemma_ap_leaf_mono(a.0@, cur);
                    assert(pack_f(*x, m@, seen@, arg_instructions@, instructions@)
                        =~= ap_leaf(a.0@, cur));
                }
            },
            Term::Var(_) => {},
        }
        i = i + 1;
    }
    proof {
        assert(pack_f(*x, m@, seen@, arg_instructions@, instructions@) == ap(root, cv, st0));
        lemma_ap_mono(root, cv, st0);
    }
    Ok(())
}

/// One top-level query argument: a variable argument emits
/// `PutVariable` on first occurrence (allocating a fresh temporary if
/// it has no register yet) and `PutValue` afterwards; any other
/// argument is pinned to the argument register and laid out by the
/// query-side visit, with temporaries starting past the arity.
pub open spec fn cq_arg(c: CompoundV, i: int, st: CompSt) -> CompSt {
    let a = i + 1;
    let k = norm_key(c.args[i]);
    match c.args[i] {
        TermV::Var(_) => {
            if !seen_has_v(st.seen, k) {
                match term_lookup(st.m, k) {
                    Some(r) => CompSt {
                        instrs: st.instrs.push(InstrV::PutVariable(r, Register::X(a as usize))),
                        seen: st.seen.push(k),
                        ..st
                    },
                    None => CompSt {
                        m: st.m.push((k, xreg(a + c.arity))),
                        instrs: st.instrs.push(
                            InstrV::PutVariable(xreg(a + c.arity), Register::X(a as usize)),
                        ),
                        seen: st.seen.push(k),
                        ..st
                    },
                }
            } else {
                CompSt {
                    instrs: st.instrs.push(
                        InstrV::PutValue(term_lookup(st.m, k).unwrap(), Register::X(a as usize)),
                    ),
                    ..st
                }
            }
        },
        _ => CompSt {
            x: 0,
            ..aq(
                structuralized(c.args[i]).unwrap(),
                CompSt {
                    x: a + c.arity,
                    m: st.m.push((k, Register::X(a as usize))),
                    seen: st.seen.push(k),
                    ..st
                },
            )
        },
    }
}

/// The fold of `cq_arg` over all top-level arguments.
pub open spec fn cq_args(c: CompoundV, i: int, st: CompSt) -> CompSt
    decreases c.args.len() - i,
{
    if i < 0 || i >= c.args.len() {
        st
    } else {
        cq_args(c, i + 1, cq_arg(c, i, st))
    }
}

/// The instructions a compiled query consists of: the argument setup
/// followed by `Call(name/arity)`.
pub open spec fn cq(c: CompoundV, st: CompSt) -> CompSt {
    let st1 = cq_args(c, 0, st);
    CompSt { instrs: st1.instrs.push(InstrV::Call(functor_of(c))), ..st1 }
}

/// Whether one top-level query argument compiles within the machine
/// limits: the temporary indices it consumes fit in a register.
pub open spec fn cq_arg_ok(c: CompoundV, i: int, st: CompSt) -> bool {
    let a = i + 1;
    let k = norm_key(c.args[i]);
    match c.args[i] {
        TermV::Var(_) => {
            if !seen_has_v(st.seen, k) {
                term_lookup(st.m, k) is None ==> a + c.arity <= usize::MAX
            } else {
                term_lookup(st.m, k) is Some
            }
        },
        _ => a + c.arity <= usize::MAX && aq(
            structuralized(c.args[i]).unwrap(),
            CompSt {
                x: a + c.arity,
                m: st.m.push((k, Register::X(a as usize))),
                seen: st.seen.push(k),
                ..st
            },
        ).x <= usize::MAX,
    }
}

/// Whether a whole query compiles within the machine limits.
pub open spec fn cq_ok(c: CompoundV, i: int, st: CompSt) -> bool
    decreases c.args.len() - i,
{
    if i < 0 || i >= c.args.len() {
        true
    } else {
        cq_arg_ok(c, i, st) && cq_ok(c, i + 1, cq_arg(c, i, st))
    }
}

/// Compile a query term: set up the argument registers in order and
/// call the term's functor.  Variable bindings recorded in `m` and
/// `seen` carry over to later compilations.
#[verifier::loop_isolation(false)]
pub fn compile_query<T: crate::ast::Structuralize>(
    term: &T,
    m: &mut Vec<(Term, Register)>,
    seen: &mut Vec<Term>,
) -> (r: Result<Vec<Instruction>, MachineError>)
    ensures
        ({
            let st0 = CompSt {
                x: 0,
                m: map_view(old(m)@),
                seen: seen_view(old(seen)@),
                instrs: Seq::empty(),
            };
            match (r, term.sview()) {
                (Ok(instrs), Some(c)) => {
                    let stf = cq(c, st0);
                    &&& cq_ok(c, 0, st0)
                    &&& instrs@.map_values(|i: Instruction| i@) == stf.instrs
                    &&& map_view(final(m)@) == stf.m
                    &&& seen_view(final(seen)@) == stf.seen
                },
                (Err(e), Some(c)) => e == MachineError::InvalidCell && !cq_ok(c, 0, st0),
                (Err(e), None) => e == MachineError::MalformedAst,
                (Ok(_), None) => false,
            }
        }),
{
    let compound = match term.structuralize() {
        Some(c) => c,
        None => {
            return Err(MachineError::MalformedAst);
        },
    };
    let ghost cv = compound@;
    let ghost argsv = cv.args;
    let ghost st0 = CompSt {
        x: 0,
        m: map_view(m@),
        seen: seen_view(seen@),
        instrs: Seq::empty(),
    };
    proof {
        lemma_terms_view(compound.args@);
    }
    let mut instructions: Vec<Instruction> = Vec::new();
    proof {
        assert(cpack(m@, seen@, instructions@) =~= st0);
    }
    let n = compound.args.len();
    let mut i: usize = 0;
    while i < n
        invariant
            i <= n,
            n == compound.args@.len(),
            argsv.len() == n,
            cv.arity == compound.arity,
            forall|j: int| 0 <= j < n ==> argsv[j] == term_view(&compound.args@[j]),
            cq_args(cv, i as int, cpack(m@, seen@, instructions@)) == cq_args(cv, 0, st0),
            cq_ok(cv, 0, st0) == cq_ok(cv, i as int, cpack(m@, seen@, instructions@)),
        decreases n - i,
    {
        let ghost cur = cpack(m@, seen@, instructions@);
        let a = i + 1;
        let is_var = matches!(&compound.args[i], Term::Var(_));
        if is_var {
            if !seen_has(seen, &compound.args[i]) {
                match map_lookup(m, &compound.args[i]) {
                    Some(r0) => {
                        instructions.push(Instruction::PutVariable(r0, Register::X(a)));
                        let t2 = compound.args[i].clone();
                        seen.push(t2);
                    },
                    None => {
                        if compound.arity > usize::MAX - a {
                            proof {
                                assert(!cq_arg_ok(cv, i as int, cur));
                            }
                            return Err(MachineError::InvalidCell);
                        }
                        let xr = a + compound.arity;
                        instructions.push(
                            Instruction::PutVariable(Register::X(xr), Register::X(a)),
                        );
                        let t2 = compound.args[i].clone();
                        m.push((t2, Register::X(xr)));
                        let t3 = compound.args[i].clone();
                        seen.push(t3);
                    },
                }
            } else {
                match map_lookup(m, &compound.args[i]) {
                    Some(r0) => {
                        instructions.push(Instruction::PutValue(r0, Register::X(a)));
                    },
                    None => {
                        proof {
                            assert(!cq_arg_ok(cv, i as int, cur));
                        }
                        return Err(MachineError::InvalidCell);
                    },
                }
            }
        } else {
            if compound.arity > usize::MAX - a {
                proof {
                    assert(!cq_arg_ok(cv, i as int, cur));
                }
                return Err(MachineError::InvalidCell);
            }
            let sub = match compound.args[i].structuralize() {
                Some(s) => s,
                None => {
                    proof {
                        assert(false);
                    }
                    return Err(MachineError::MalformedAst);
                },
            };
            let t2 = compound.args[i].clone();
            m.push((t2, Register::X(a)));
            let t3 = compound.args[i].clone();
            seen.push(t3);
            let mut x: usize = a + compound.arity;
            proof {
                assert(pack(x, m@, seen@, instructions@) =~= (CompSt {
                    x: a + cv.arity,
                    m: cur.m.push((norm_key(argsv[i as int]), Register::X(a as usize))),
                    seen: cur.seen.push(norm_key(argsv[i as int])),
                    ..cur
                }));
            }
            match allocate_query_registers(&sub, &mut x, m, seen, &mut instructions) {
                Ok(_) => {},
                Err(e) => {
                    proof {
                        assert(!cq_arg_ok(cv, i as int, cur));
                    }
                    return Err(e);
                },
            }
        }
        i = i + 1;
        proof {
            assert(cpack(m@, seen@, instructions@) =~= cq_arg(cv, i - 1, cur));
            assert(cq_arg_ok(cv, i - 1, cur));
        }
    }
    let f = crate::cells::Functor(compound.name.clone(), compound.arity);
    instructions.push(Instruction::Call(f));
    proof {
        let stf = cq(cv, st0);
        assert(instructions@.map_values(|k: Instruction| k@) =~= stf.instrs);
    }
    Ok(instructions)
}

/// The compiler state of a query compilation in progress; the counter
/// is reset per argument and is not part of the threading.
pub open spec fn cpack(
    m: Seq<(Term, Register)>,
    seen: Seq<Term>,
    instrs: Seq<Instruction>,
) -> CompSt {
    CompSt {
        x: 0,
        m: map_view(m),
        seen: seen_view(seen),
        instrs: instrs.map_values(|i: Instruction| i@),
    }
}

/// One top-level fact argument: a variable argument emits
/// `GetVariable` on first occurrence and `GetValue` afterwards; any
/// other argument is pinned to the argument register and decomposed
/// by the program-side visit.
pub open spec fn cf_arg(c: CompoundV, i: int, st: FactSt) -> FactSt {
    let a = i + 1;
    let k = norm_key(c.args[i]);
    match c.args[i] {
        TermV::Var(_) => {
            if !seen_has_v(st.seen, k) {
                match term_lookup(st.m, k) {
                    Some(r) => FactSt {
                        argi: st.argi.push(InstrV::GetVariable(r, Register::X(a as usize))),
                        seen: st.seen.push(k),
                        ..st
                    },
                    None => FactSt {
                        m: st.m.push((k, xreg(a + c.arity))),
                        argi: st.argi.push(
                            InstrV::GetVariable(xreg(a + c.arity), Register::X(a as usize)),
                        ),
                        seen: st.seen.push(k),
                        ..st
                    },
                }
            } else {
                FactSt {
                    argi: st.argi.push(
                        InstrV::GetValue(term_lookup(st.m, k).unwrap(), Register::X(a as usize)),
                    ),
                    ..st
                }
            }
        },
        _ => FactSt {
            x: 0,
            ..ap(
                true,
                structuralized(c.args[i]).unwrap(),
                FactSt {
                    x: a + c.arity,
                    m: st.m.push((k, Register::X(a as usize))),
                    seen: st.seen.push(k),
                    ..st
                },
            )
        },
    }
}

/// The fold of `cf_arg` over all top-level arguments.
pub open spec fn cf_args(c: CompoundV, i: int, st: FactSt) -> FactSt
    decreases c.args.len() - i,
{
    if i < 0 || i >= c.args.len() {
        st
    } else {
        cf_args(c, i + 1, cf_arg(c, i, st))
    }
}

/// The instructions a compiled fact consists of: the argument
/// matching stream, then the nested decomposition stream, closed by
/// `Proceed`.
pub open spec fn cf(c: CompoundV, st: FactSt) -> FactSt {
    let st1 = cf_args(c, 0, st);
    FactSt { insti: st1.insti.push(InstrV::Proceed), ..st1 }
}

/// Whether one top-level fact argument compiles within the machine
/// limits.
pub open spec fn cf_arg_ok(c: CompoundV, i: int, st: FactSt) -> bool {
    let a = i + 1;
    let k = norm_key(c.args[i]);
    match c.args[i] {
        TermV::Var(_) => {
            if !seen_has_v(st.seen, k) {
                term_lookup(st.m, k) is None ==> a + c.arity <= usize::MAX
            } else {
                term_lookup(st.m, k) is Some
            }
        },
        _ => a + c.arity <= usize::MAX && ap(
            true,
            structuralized(c.args[i]).unwrap(),
            FactSt {
                x: a + c.arity,
                m: st.m.push((k, Register::X(a as usize))),
                seen: st.seen.push(k),
                ..st
            },
        ).x <= usize::MAX,
    }
}

/// Whether a whole fact compiles within the machine limits.
pub open spec fn cf_ok(c: CompoundV, i: int, st: FactSt) -> bool
    decreases c.args.len() - i,
{
    if i < 0 || i >= c.args.len() {
        true
    } else {
        cf_arg_ok(c, i, st) && cf_ok(c, i + 1, cf_arg(c, i, st))
    }
}

/// The compiler state of a fact compilation in progress.
pub open spec fn fpack(
    m: Seq<(Term, Register)>,
    seen: Seq<Term>,
    argi: Seq<Instruction>,
    insti: Seq<Instruction>,
) -> FactSt {
    FactSt {
        x: 0,
        m: map_view(m),
        seen: seen_view(seen),
        argi: argi.map_values(|i: Instruction| i@),
        insti: insti.map_values(|i: Instruction| i@),
    }
}

/// Compile a fact: match the argument registers in order, decompose
/// nested structures, and end with `Proceed`.
#[verifier::loop_isolation(false)]
pub fn compile_fact<T: crate::ast::Structuralize>(
    term: &T,
    m: &mut Vec<(Term, Register)>,
    seen: &mut Vec<Term>,
) -> (r: Result<Vec<Instruction>, MachineError>)
    ensures
        ({
            let st0 = FactSt {
                x: 0,
                m: map_view(old(m)@),
                seen: seen_view(old(seen)@),
                argi: Seq::empty(),
                insti: Seq::empty(),
            };
            match (r, term.sview()) {
                (Ok(instrs), Some(c)) => {
                    let stf = cf(c, st0);
                    &&& cf_ok(c, 0, st0)
                    &&& instrs@.map_values(|i: Instruction| i@) == stf.argi + stf.insti
                    &&& map_view(final(m)@) == stf.m
                    &&& seen_view(final(seen)@) == stf.seen
                },
                (Err(e), Some(c)) => e == MachineError::InvalidCell && !cf_ok(c, 0, st0),
                (Err(e), None) => e == MachineError::MalformedAst,
                (Ok(_), None) => false,
            }
        }),
{
    let compound = match term.structuralize() {
        Some(c) => c,
        None => {
            return Err(MachineError::MalformedAst);
        },
    };
    let ghost cv = compound@;
    let ghost argsv = cv.args;
    let ghost st0 = FactSt {
        x: 0,
        m: map_view(m@),
        seen: seen_view(seen@),
        argi: Seq::empty(),
        insti: Seq::empty(),
    };
    proof {
        lemma_terms_view(compound.args@);
    }
    let mut arg_instructions: Vec<Instruction> = Vec::new();
    let mut instructions: Vec<Instruction> = Vec::new();
    proof {
        assert(fpack(m@, seen@, arg_instructions@, instructions@) =~= st0);
    }
    let n = compound.args.len();
    let mut i: usize = 0;
    while i < n
        invariant
            i <= n,
            n == compound.args@.len(),
            argsv.len() == n,
            cv.arity == compound.arity,
            forall|j: int| 0 <= j < n ==> argsv[j] == term_view(&compound.args@[j]),
            cf_args(cv, i as int, fpack(m@, seen@, arg_instructions@, instructions@))
                == cf_args(cv, 0, st0),
            cf_ok(cv, 0, st0) == cf_ok(
                cv,
                i as int,
                fpack(m@, seen@, arg_instructions@, instructions@),
            ),
        decreases n - i,
    {
        let ghost cur = fpack(m@, seen@, arg_instructions@, instructions@);
        let a = i + 1;
        let is_var = matches!(&compound.args[i], Term::Var(_));
        if is_var {
            if !seen_has(seen, &compound.args[i]) {
                match map_lookup(m, &compound.args[i]) {
                    Some(r0) => {
                        arg_instructions.push(Instruction::GetVariable(r0, Register::X(a)));
                        let t2 = compound.args[i].clone();
                        seen.push(t2);
                    },
                    None => {
                        if compound.arity > usize::MAX - a {
                            proof {
                                assert(!cf_arg_ok(cv, i as int, cur));
                            }
                            return Err(MachineError::InvalidCell);
                        }
                        let xr = a + compound.arity;
                        arg_instructions.push(
                            Instruction::GetVariable(Register::X(xr), Register::X(a)),
                        );
                        let t2 = compound.args[i].clone();
                        m.push((t2, Register::X(xr)));
                        let t3 = compound.args[i].clone();
                        seen.push(t3);
                    },
                }
            } else {
                match map_lookup(m, &compound.args[i]) {
                    Some(r0) => {
                        arg_instructions.push(Instruction::GetValue(r0, Register::X(a)));
                    },
                    None => {
                        proof {
                            assert(!cf_arg_ok(cv, i as int, cur));
                        }
                        return Err(MachineError::InvalidCell);
                    },
                }
            }
        } else {
            if compound.arity > usize::MAX - a {
                proof {
                    assert(!cf_arg_ok(cv, i as int, cur));
                }
                return Err(MachineError::InvalidCell);
            }
            let sub = match compound.args[i].structuralize() {
                Some(s) => s,
                None => {
                    proof {
                        assert(false);
                    }
                    return Err(MachineError::MalformedAst);
                },
            };
            let t2 = compound.args[i].clone();
            m.push((t2, Register::X(a)));
            let t3 = compound.args[i].clone();
            seen.push(t3);
            let mut x: usize = a + compound.arity;
            proof {
                assert(pack_f(x, m@, seen@, arg_instructions@, instructions@) =~= (FactSt {
                    x: a + cv.arity,
                    m: cur.m.push((norm_key(argsv[i as int]), Register::X(a as usize))),
                    seen: cur.seen.push(norm_key(argsv[i as int])),
                    ..cur
                }));
            }
            match allocate_program_registers(true, &sub, &mut x, m, seen, &mut arg_instructions,
                &mut instructions) {
                Ok(_) => {},
                Err(e) => {
                    proof {
                        assert(!cf_arg_ok(cv, i as int, cur));
                    }
                    return Err(e);
                },
            }
        }
        i = i + 1;
        proof {
            assert(fpack(m@, seen@, arg_instructions@, instructions@) =~= cf_arg(cv, i - 1, cur));
            assert(cf_arg_ok(cv, i - 1, cur));
        }
    }
    instructions.push(Instruction::Proceed);
    let ghost stf = cf(cv, st0);
    let mut k: usize = 0;
    let nn = instructions.len();
    while k < nn
        invariant
            k <= nn,
            nn == instructions@.len(),
            instructions@.map_values(|q: Instruction| q@) == stf.insti,
            map_view(m@) == stf.m,
            seen_view(seen@) == stf.seen,
            arg_instructions@.map_values(|q: Instruction| q@) == stf.argi + stf.insti.take(
                k as int,
            ),
        decreases nn - k,
    {
        let ins = instructions[k].clone();
        arg_instructions.push(ins);
        k = k + 1;
        proof {
            let prev = stf.insti.take(k - 1);
            assert(stf.insti.take(k as int) =~= prev.push(stf.insti[k - 1]));
            assert(instructions@.map_values(|q: Instruction| q@)[k - 1] == stf.insti[k - 1]);
            assert(arg_instructions@.map_values(|q: Instruction| q@) =~= (stf.argi + prev).push(
                stf.insti[k - 1],
            ));
            assert(stf.argi + stf.insti.take(k as int) =~= (stf.argi + prev).push(
                stf.insti[k - 1],
            ));
        }
    }
    proof {
        assert(stf.insti.take(nn as int) =~= stf.insti);
        assert(arg_instructions@.map_values(|q: Instruction| q@) =~= stf.argi + stf.insti);
    }
    Ok(arg_instructions)
}

/// The view of a sequence of variables: their names.
pub open spec fn names_view(s: Seq<crate::ast::Var>) -> Seq<Seq<char>> {
    s.map_values(|v: crate::ast::Var| v.0@)
}

/// The variable names below an argument list, in textual depth-first
/// order: a variable contributes its name, a compound of positive
/// arity contributes the names below it, an atom nothing.
pub open spec fn fv_args(args: Seq<TermV>, i: int) -> Seq<Seq<char>>
    decreases args, args.len() - i,
{
    if i < 0 || i >= args.len() {
        Seq::empty()
    } else {
        (match args[i] {
            TermV::Var(n) => seq![n],
            TermV::Compound(c) => if c.arity > 0 {
                fv_args(c.args, 0)
            } else {
                Seq::empty()
            },
            TermV::Atom(_) => Seq::empty(),
        }) + fv_args(args, i + 1)
    }
}

/// The variable names below a compound.
pub open spec fn fvc(c: CompoundV) -> Seq<Seq<char>> {
    fv_args(c.args, 0)
}

/// The variable names below a term.
pub open spec fn fv_term(t: TermV) -> Seq<Seq<char>> {
    match t {
        TermV::Compound(c) => fvc(c),
        _ => Seq::empty(),
    }
}

/// Whether a name occurs in a list of names.
pub open spec fn occurs_name(names: Seq<Seq<char>>, n: Seq<char>) -> bool {
    exists|i: int| 0 <= i < names.len() && names[i] == n
}

/// Collect the variables below a term, in textual depth-first order.
#[verifier::loop_isolation(false)]
pub fn find_variables(term: &Term, vars: &mut Vec<crate::ast::Var>)
    ensures
        names_view(final(vars)@) == names_view(old(vars)@) + fv_term(term@),
    decreases term,
{
    let ghost base = names_view(vars@);
    match term {
        Term::Compound(c) => {
            let ghost argsv = compound_view(c).args;
            proof {
                lemma_terms_view(c.args@);
            }
            let n = c.args.len();
            let mut i: usize = 0;
            while i < n
                invariant
                    i <= n,
                    n == c.args@.len(),
                    argsv.len() == n,
                    forall|j: int| 0 <= j < n ==> argsv[j] == term_view(&c.args@[j]),
                    names_view(vars@) + fv_args(argsv, i as int) == base + fv_args(argsv, 0),
                decreases n - i,
            {
                let ghost before = names_view(vars@);
                match &c.args[i] {
                    Term::Var(v) => {
                        let v2 = v.clone();
                        vars.push(v2);
                        proof {
                            assert(names_view(vars@) =~= before.push(argsv[i as int]->Var_0));
                            assert(before.push(argsv[i as int]->Var_0) =~= before + seq![
                                argsv[i as int]->Var_0,
                            ]);
                        }
                    },
                    Term::Compound(cc) => {
                        if cc.arity > 0 {
                            find_variables(&c.args[i], vars);
                        }
                    },
                    Term::Atom(_) => {},
                }
                i = i + 1;
                proof {
                    assert((before + (match argsv[i - 1] {
                        TermV::Var(nm) => seq![nm],
                        TermV::Compound(ccv) => if ccv.arity > 0 {
                            fv_args(ccv.args, 0)
                        } else {
                            Seq::empty()
                        },
                        TermV::Atom(_) => Seq::empty(),
                    })) + fv_args(argsv, i as int) =~= before + fv_args(argsv, i - 1));
                }
            }
            proof {
                assert(fv_args(argsv, n as int) =~= Seq::<Seq<char>>::empty());
                assert(names_view(vars@) + Seq::<Seq<char>>::empty() =~= names_view(vars@));
                assert(base + fv_args(argsv, 0) =~= base + fv_term(term@));
            }
        },
        _ => {
            proof {
                assert(names_view(vars@) =~= base + fv_term(term@));
            }
        },
    }
}

/// How many chunks a name occurs in, over the first `i` chunks.
pub open spec fn count_pre(chs: Seq<Seq<Seq<char>>>, n: Seq<char>, i: int) -> int
    decreases i,
{
    if i <= 0 {
        0
    } else {
        count_pre(chs, n, i - 1) + if occurs_name(chs[i - 1], n) {
            1int
        } else {
            0int
        }
    }
}

/// The chunks of a rule: the head and the first body goal form one
/// chunk, each further body goal its own.
pub open spec fn chunks_of(r: crate::ast::RuleV) -> Seq<Seq<Seq<char>>> {
    Seq::new(
        r.body.len(),
        |k: int|
            if k == 0 {
                fvc(r.head) + fvc(r.body[0])
            } else {
                fvc(r.body[k])
            },
    )
}

/// The names below the body goals from index `i` on.
pub open spec fn body_names(body: Seq<CompoundV>, i: int) -> Seq<Seq<char>>
    decreases body.len() - i,
{
    if i < 0 || i >= body.len() {
        Seq::empty()
    } else {
        fvc(body[i]) + body_names(body, i + 1)
    }
}

/// All variable names of a rule in textual order: head first, then
/// the body goals.
pub open spec fn all_names(r: crate::ast::RuleV) -> Seq<Seq<char>> {
    fvc(r.head) + body_names(r.body, 0)
}

/// Walk the names in textual order and give each first occurrence of
/// a permanent variable (one that occurs in at least two chunks) the
/// next `Y` register.
pub open spec fn ymap_build(
    all: Seq<Seq<char>>,
    i: int,
    chs: Seq<Seq<Seq<char>>>,
    acc: Seq<(TermV, Register)>,
) -> Seq<(TermV, Register)>
    decreases all.len() - i,
{
    if i < 0 || i >= all.len() {
        acc
    } else if !occurs_name(all.take(i), all[i]) && count_pre(chs, all[i], chs.len() as int) >= 2 {
        ymap_build(
            all,
            i + 1,
            chs,
            acc.push((TermV::Var(all[i]), Register::Y((acc.len() + 1) as usize))),
        )
    } else {
        ymap_build(all, i + 1, chs, acc)
    }
}

/// The permanent-variable assignment of a rule.
pub open spec fn perm_map(r: crate::ast::RuleV) -> Seq<(TermV, Register)> {
    ymap_build(all_names(r), 0, chunks_of(r), Seq::empty())
}

/// Whether a name occurs among the first `upto` collected variables.
fn name_in_prefix(vars: &Vec<crate::ast::Var>, upto: usize, name: &String) -> (r: bool)
    requires
        upto <= vars@.len(),
    ensures
        r == occurs_name(names_view(vars@).take(upto as int), name@),
{
    let ghost pre = names_view(vars@).take(upto as int);
    let mut j: usize = 0;
    while j < upto
        invariant
            j <= upto <= vars@.len(),
            pre == names_view(vars@).take(upto as int),
            pre.len() == upto,
            forall|q: int| 0 <= q < j ==> pre[q] != name@,
        decreases upto - j,
    {
        if vars[j].0 == *name {
            proof {
                assert(pre[j as int] == name@);
            }
            return true;
        }
        j = j + 1;
    }
    false
}

/// Whether a name occurs in one chunk.
fn name_in_chunk(chunk: &Vec<crate::ast::Var>, name: &String) -> (r: bool)
    ensures
        r == occurs_name(names_view(chunk@), name@),
{
    let n = chunk.len();
    let mut j: usize = 0;
    while j < n
        invariant
            j <= n,
            n == chunk@.len(),
            forall|q: int| 0 <= q < j ==> names_view(chunk@)[q] != name@,
        decreases n - j,
    {
        if chunk[j].0 == *name {
            proof {
                assert(names_view(chunk@)[j as int] == name@);
            }
            return true;
        }
        j = j + 1;
    }
    false
}

/// The view of a list of chunks.
pub open spec fn chunks_view(chs: Seq<Vec<crate::ast::Var>>) -> Seq<Seq<Seq<char>>> {
    chs.map_values(|v: Vec<crate::ast::Var>| names_view(v@))
}

/// Count the chunks a name occurs in.
fn count_chunks(chunks: &Vec<Vec<crate::ast::Var>>, name: &String) -> (r: usize)
    ensures
        r == count_pre(chunks_view(chunks@), name@, chunks@.len() as int),
{
    let n = chunks.len();
    let mut cnt: usize = 0;
    let mut j: usize = 0;
    while j < n
        invariant
            j <= n,
            n == chunks@.len(),
            cnt <= j,
            cnt == count_pre(chunks_view(chunks@), name@, j as int),
        decreases n - j,
    {
        if name_in_chunk(&chunks[j], name) {
            cnt = cnt + 1;
        }
        j = j + 1;
    }
    cnt
}

/// Permanent-variable analysis: a variable is permanent when it
/// occurs in more than one chunk of the rule, the head and the first
/// body goal counting as one chunk.  Permanent variables get `Y`
/// registers in order of first textual occurrence.
#[verifier::loop_isolation(false)]
pub fn collect_permanent_variables(rule: &crate::ast::Rule) -> (r: Result<
    Vec<(Term, Register)>,
    MachineError,
>)
    ensures
        match r {
            Ok(y) => rule@.body.len() >= 1 && map_view(y@) == perm_map(rule@),
            Err(e) => e == MachineError::MalformedAst && rule@.body.len() == 0,
        },
{
    let ghost rv = rule@;
    if rule.body.len() == 0 {
        return Err(MachineError::MalformedAst);
    }
    let ghost chs = chunks_of(rv);
    let mut chunk_vars: Vec<Vec<crate::ast::Var>> = Vec::new();
    let mut c0: Vec<crate::ast::Var> = Vec::new();
    let head_term = Term::Compound(rule.head.clone());
    find_variables(&head_term, &mut c0);
    let goal0 = Term::Compound(rule.body[0].clone());
    find_variables(&goal0, &mut c0);
    proof {
        assert(names_view(c0@) =~= fvc(rv.head) + fvc(rv.body[0]));
    }
    chunk_vars.push(c0);
    let nb = rule.body.len();
    let mut k: usize = 1;
    while k < nb
        invariant
            1 <= k <= nb,
            nb == rule.body@.len(),
            rv == rule@,
            rv.body.len() == nb,
            chs == chunks_of(rv),
            chunk_vars@.len() == k,
            forall|q: int| 0 <= q < k ==> chunks_view(chunk_vars@)[q] == chs[q],
        decreases nb - k,
    {
        let mut ck: Vec<crate::ast::Var> = Vec::new();
        let goal = Term::Compound(rule.body[k].clone());
        find_variables(&goal, &mut ck);
        proof {
            assert(names_view(ck@) =~= fvc(rv.body[k as int]));
        }
        chunk_vars.push(ck);
        k = k + 1;
    }
    proof {
        assert(chunks_view(chunk_vars@) =~= chs);
    }
    let mut all: Vec<crate::ast::Var> = Vec::new();
    let head_term2 = Term::Compound(rule.head.clone());
    find_variables(&head_term2, &mut all);
    let mut k: usize = 0;
    while k < nb
        invariant
            k <= nb,
            nb == rule.body@.len(),
            rv == rule@,
            rv.body.len() == nb,
            names_view(all@) + body_names(rv.body, k as int) == all_names(rv),
        decreases nb - k,
    {
        let ghost before = names_view(all@);
        let goal = Term::Compound(rule.body[k].clone());
        find_variables(&goal, &mut all);
        k = k + 1;
        proof {
            assert((before + fvc(rv.body[k - 1])) + body_names(rv.body, k as int) =~= before
                + body_names(rv.body, k - 1));
        }
    }
    proof {
        assert(body_names(rv.body, nb as int) =~= Seq::<Seq<char>>::empty());
        assert(names_view(all@) + Seq::<Seq<char>>::empty() =~= names_view(all@));
        assert(names_view(all@) == all_names(rv));
    }
    let ghost alln = all_names(rv);
    let mut y: Vec<(Term, Register)> = Vec::new();
    proof {
        assert(map_view(y@) =~= Seq::<(TermV, Register)>::empty());
    }
    let na = all.len();
    let mut i: usize = 0;
    while i < na
        invariant
            i <= na,
            na == all@.len(),
            alln == names_view(all@),
            alln.len() == na,
            y@.len() <= i,
            ymap_build(alln, i as int, chunks_view(chunk_vars@), map_view(y@)) == perm_map(rv),
            chunks_view(chunk_vars@) == chs,
        decreases na - i,
    {
        let ghost acc = map_view(y@);
        let first = !name_in_prefix(&all, i, &all[i].0);
        if first {
            let cnt = count_chunks(&chunk_vars, &all[i].0);
            if cnt >= 2 {
                let v2 = all[i].clone();
                let reg = Register::Y(y.len() + 1);
                y.push((Term::Var(v2), reg));
                proof {
                    assert(map_view(y@) =~= acc.push(
                        (TermV::Var(alln[i as int]), Register::Y((acc.len() + 1) as usize)),
                    ));
                }
            }
        }
        i = i + 1;
    }
    Ok(y)
}

/// A query compilation started with a zero counter leaves it zero:
/// each argument works with its own counter.
proof fn lemma_cq_x_zero(c: CompoundV, i: int, st: CompSt)
    requires
        st.x == 0,
    ensures
        cq_args(c, i, st).x == 0,
    decreases c.args.len() - i,
{
    if 0 <= i < c.args.len() {
        lemma_cq_x_zero(c, i + 1, cq_arg(c, i, st));
    }
}

/// Compile the body goals in order, each as a query, concatenating
/// their instructions.
pub open spec fn rule_body_fold(body: Seq<CompoundV>, i: int, st: CompSt) -> CompSt
    decreases body.len() - i,
{
    if i < 0 || i >= body.len() {
        st
    } else {
        let one = cq(body[i], CompSt { instrs: Seq::empty(), ..st });
        rule_body_fold(body, i + 1, CompSt { instrs: st.instrs + one.instrs, ..one })
    }
}

/// Whether every body goal compiles within the machine limits.
pub open spec fn rule_body_ok(body: Seq<CompoundV>, i: int, st: CompSt) -> bool
    decreases body.len() - i,
{
    if i < 0 || i >= body.len() {
        true
    } else {
        let one = cq(body[i], CompSt { instrs: Seq::empty(), ..st });
        cq_ok(body[i], 0, CompSt { instrs: Seq::empty(), ..st }) && rule_body_ok(
            body,
            i + 1,
            CompSt { instrs: st.instrs + one.instrs, ..one },
        )
    }
}

/// The state after compiling the head of a rule as a fact, with the
/// permanent variables pre-seeded.
pub open spec fn rule_head_st(r: crate::ast::RuleV, m0: Seq<(TermV, Register)>, seen0: Seq<TermV>) -> FactSt {
    cf(
        r.head,
        FactSt {
            x: 0,
            m: m0 + perm_map(r),
            seen: seen0,
            argi: Seq::empty(),
            insti: Seq::empty(),
        },
    )
}

/// The state after laying out a whole rule: `Allocate(n)`, the head
/// code without its `Proceed`, the body goals as queries, and
/// `Deallocate`.
pub open spec fn crule(r: crate::ast::RuleV, m0: Seq<(TermV, Register)>, seen0: Seq<TermV>) -> CompSt {
    let fhead = rule_head_st(r, m0, seen0);
    let head_full = fhead.argi + fhead.insti;
    let base = CompSt {
        x: 0,
        m: fhead.m,
        seen: fhead.seen,
        instrs: seq![InstrV::Allocate(perm_map(r).len() as usize)] + head_full.drop_last(),
    };
    let bst = rule_body_fold(r.body, 0, base);
    CompSt { instrs: bst.instrs.push(InstrV::Deallocate), ..bst }
}

/// Whether a whole rule compiles within the machine limits.
pub open spec fn crule_ok(r: crate::ast::RuleV, m0: Seq<(TermV, Register)>, seen0: Seq<TermV>) -> bool {
    let fhead = rule_head_st(r, m0, seen0);
    let head_full = fhead.argi + fhead.insti;
    let base = CompSt {
        x: 0,
        m: fhead.m,
        seen: fhead.seen,
        instrs: seq![InstrV::Allocate(perm_map(r).len() as usize)] + head_full.drop_last(),
    };
    &&& cf_ok(
        r.head,
        0,
        FactSt {
            x: 0,
            m: m0 + perm_map(r),
            seen: seen0,
            argi: Seq::empty(),
            insti: Seq::empty(),
        },
    )
    &&& rule_body_ok(r.body, 0, base)
}

/// Compile a rule `head :- body`: permanent-variable analysis, an
/// `Allocate` frame for the permanent variables, the head compiled as
/// a fact (without its `Proceed`), the body goals compiled as queries
/// in order, and a closing `Deallocate`.
#[verifier::loop_isolation(false)]
pub fn compile_rule(
    rule: &crate::ast::Rule,
    m: &mut Vec<(Term, Register)>,
    seen: &mut Vec<Term>,
) -> (r: Result<Vec<Instruction>, MachineError>)
    ensures
        ({
            let m0 = map_view(old(m)@);
            let seen0 = seen_view(old(seen)@);
            match r {
                Ok(instrs) => {
                    let stf = crule(rule@, m0, seen0);
                    &&& rule@.body.len() >= 1
                    &&& crule_ok(rule@, m0, seen0)
                    &&& instrs@.map_values(|i: Instruction| i@) == stf.instrs
                    &&& map_view(final(m)@) == stf.m
                    &&& seen_view(final(seen)@) == stf.seen
                },
                Err(e) => (e == MachineError::MalformedAst && rule@.body.len() == 0) || (e
                    == MachineError::InvalidCell && rule@.body.len() >= 1 && !crule_ok(
                    rule@,
                    m0,
                    seen0,
                )),
            }
        }),
{
    let ghost rv = rule@;
    let ghost m0 = map_view(m@);
    let ghost seen0 = seen_view(seen@);
    let y_map = match collect_permanent_variables(rule) {
        Ok(y) => y,
        Err(e) => {
            return Err(e);
        },
    };
    let n = y_map.len();
    let ny = y_map.len();
    let mut k: usize = 0;
    while k < ny
        invariant
            k <= ny,
            ny == y_map@.len(),
            map_view(y_map@) == perm_map(rv),
            map_view(m@) == m0 + map_view(y_map@).take(k as int),
            seen_view(seen@) == seen0,
        decreases ny - k,
    {
        let ghost before = map_view(m@);
        let t2 = y_map[k].0.clone();
        m.push((t2, y_map[k].1));
        k = k + 1;
        proof {
            assert(map_view(m@) =~= before.push(map_view(y_map@)[k - 1]));
            assert(map_view(y_map@).take(k as int) =~= map_view(y_map@).take(k - 1).push(
                map_view(y_map@)[k - 1],
            ));
            assert(m0 + map_view(y_map@).take(k as int) =~= (m0 + map_view(y_map@).take(k - 1)).push(
                map_view(y_map@)[k - 1],
            ));
        }
    }
    proof {
        assert(map_view(y_map@).take(ny as int) =~= map_view(y_map@));
        assert(map_view(m@) == m0 + perm_map(rv));
    }
    let head_term = Term::Compound(rule.head.clone());
    let head_instructions = match compile_fact(&head_term, m, seen) {
        Ok(h) => h,
        Err(e) => {
            return Err(e);
        },
    };
    let ghost fhead = rule_head_st(rv, m0, seen0);
    let ghost head_full = fhead.argi + fhead.insti;
    proof {
        assert(head_instructions@.map_values(|i: Instruction| i@) == head_full);
        assert(head_full.len() >= 1);
    }
    let mut instrs: Vec<Instruction> = Vec::new();
    instrs.push(Instruction::Allocate(n));
    let nh = head_instructions.len();
    let mut k: usize = 0;
    while k < nh - 1
        invariant
            nh >= 1,
            k <= nh - 1,
            nh == head_instructions@.len(),
            head_instructions@.map_values(|i: Instruction| i@) == head_full,
            instrs@.map_values(|i: Instruction| i@) == seq![
                InstrV::Allocate(perm_map(rv).len() as usize),
            ] + head_full.take(k as int),
        decreases nh - k,
    {
        let ghost before = instrs@.map_values(|i: Instruction| i@);
        let ins = head_instructions[k].clone();
        instrs.push(ins);
        k = k + 1;
        proof {
            assert(instrs@.map_values(|i: Instruction| i@) =~= before.push(head_full[k - 1]));
            assert(seq![InstrV::Allocate(perm_map(rv).len() as usize)] + head_full.take(k as int)
                =~= before.push(head_full[k - 1]));
        }
    }
    let ghost base = CompSt {
        x: 0,
        m: fhead.m,
        seen: fhead.seen,
        instrs: seq![InstrV::Allocate(perm_map(rv).len() as usize)] + head_full.drop_last(),
    };
    proof {
        assert(head_full.take(nh - 1) =~= head_full.drop_last());
        assert(cpack(m@, seen@, instrs@) =~= base);
    }
    let nb = rule.body.len();
    let mut b: usize = 0;
    while b < nb
        invariant
            b <= nb,
            nb == rule.body@.len(),
            rv == rule@,
            rv.body.len() == nb,
            forall|j: int| 0 <= j < nb ==> rv.body[j] == compound_view(&rule.body@[j]),
            rule_body_fold(rv.body, b as int, cpack(m@, seen@, instrs@)) == rule_body_fold(
                rv.body,
                0,
                base,
            ),
            rule_body_ok(rv.body, 0, base) == rule_body_ok(
                rv.body,
                b as int,
                cpack(m@, seen@, instrs@),
            ),
        decreases nb - b,
    {
        let ghost cur = cpack(m@, seen@, instrs@);
        let goal_instructions = match compile_query(&rule.body[b], m, seen) {
            Ok(g) => g,
            Err(e) => {
                proof {
                    assert(!cq_ok(rv.body[b as int], 0, CompSt {
                        instrs: Seq::empty(),
                        ..cur
                    }));
                }
                return Err(MachineError::InvalidCell);
            },
        };
        let ghost one = cq(rv.body[b as int], CompSt { instrs: Seq::empty(), ..cur });
        let ng = goal_instructions.len();
        let mut k: usize = 0;
        while k < ng
            invariant
                k <= ng,
                ng == goal_instructions@.len(),
                goal_instructions@.map_values(|i: Instruction| i@) == one.instrs,
                map_view(m@) == one.m,
                seen_view(seen@) == one.seen,
                instrs@.map_values(|i: Instruction| i@) == cur.instrs + one.instrs.take(
                    k as int,
                ),
            decreases ng - k,
        {
            let ghost before = instrs@.map_values(|i: Instruction| i@);
            let ins = goal_instructions[k].clone();
            instrs.push(ins);
            k = k + 1;
            proof {
                assert(instrs@.map_values(|i: Instruction| i@) =~= before.push(
                    one.instrs[k - 1],
                ));
                assert(cur.instrs + one.instrs.take(k as int) =~= before.push(
                    one.instrs[k - 1],
                ));
            }
        }
        b = b + 1;
        proof {
            assert(one.instrs.take(ng as int) =~= one.instrs);
            lemma_cq_x_zero(rv.body[b - 1], 0, CompSt { instrs: Seq::empty(), ..cur });
            assert(cpack(m@, seen@, instrs@) =~= (CompSt {
                instrs: cur.instrs + one.instrs,
                ..one
            }));
        }
    }
    instrs.push(Instruction::Deallocate);
    proof {
        let stf = crule(rv, m0, seen0);
        assert(instrs@.map_values(|i: Instruction| i@) =~= stf.instrs);
    }
    Ok(instrs)
}

} // verus!

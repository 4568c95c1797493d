//! The surface syntax: atoms are lowercase identifiers or single-quoted
//! strings, variables are capitalised (or underscore-led) identifiers,
//! compounds are `name(arg, ..., arg)` with the parenthesis immediately
//! after the name, and an expression ends with `.`.

use vstd::prelude::*;
use vstd::string::StrSliceExecFns;

use crate::ast::Atom;
use crate::ast::Compound;
use crate::ast::Term;
use crate::ast::TermV;
use crate::ast::Var;
use crate::machine::MachineError;

verus! {

/// A lowercase letter.
pub open spec fn is_lower(c: char) -> bool {
    'a' as u32 <= c as u32 <= 'z' as u32
}

/// An uppercase letter.
pub open spec fn is_upper(c: char) -> bool {
    'A' as u32 <= c as u32 <= 'Z' as u32
}

/// A decimal digit.
pub open spec fn is_digit(c: char) -> bool {
    '0' as u32 <= c as u32 <= '9' as u32
}

/// A character allowed inside an identifier.
pub open spec fn is_ident_char(c: char) -> bool {
    is_lower(c) || is_upper(c) || is_digit(c) || c == '_'
}

/// Whitespace between tokens.
pub open spec fn is_space(c: char) -> bool {
    c == ' ' || c == '\t' || c == '\n' || c == '\r'
}

/// The text of an unquoted atom: a lowercase letter followed by
/// identifier characters.
pub open spec fn is_plain_atom_text(s: Seq<char>) -> bool {
    s.len() > 0 && is_lower(s[0]) && forall|i: int| 0 <= i < s.len() ==> is_ident_char(#[trigger] s[i])
}

/// The text of a quoted atom: a nonempty run of characters other than
/// the quote, between two single quotes.
pub open spec fn is_quoted_atom_text(s: Seq<char>) -> bool {
    s.len() >= 3 && s[0] == '\'' && s[s.len() - 1] == '\'' && forall|i: int|
        1 <= i < s.len() - 1 ==> #[trigger] s[i] != '\''
}

/// The name a piece of atom text denotes: quotes are stripped.
pub open spec fn atom_text_value(s: Seq<char>) -> Seq<char> {
    if is_quoted_atom_text(s) {
        s.subrange(1, s.len() - 1)
    } else {
        s
    }
}

/// The text of a variable: an uppercase letter or underscore followed
/// by identifier characters.
pub open spec fn is_var_text(s: Seq<char>) -> bool {
    s.len() > 0 && (is_upper(s[0]) || s[0] == '_') && forall|i: int|
        0 <= i < s.len() ==> is_ident_char(#[trigger] s[i])
}

/// The text of a number: a nonempty run of digits.
pub open spec fn is_number_text(s: Seq<char>) -> bool {
    s.len() > 0 && forall|i: int| 0 <= i < s.len() ==> is_digit(#[trigger] s[i])
}

/// The value of a run of digits.
pub open spec fn digits_val(s: Seq<char>) -> int
    decreases s.len(),
{
    if s.len() == 0 {
        0
    } else {
        digits_val(s.drop_last()) * 10 + (s.last() as u32 - '0' as u32)
    }
}

/// A well-formed term: names are nonempty, every compound's recorded
/// arity is its argument count, and a parsed compound has at least one
/// argument.
pub open spec fn wf_term(t: TermV) -> bool
    decreases t,
{
    match t {
        TermV::Atom(n) => n.len() > 0,
        TermV::Var(n) => n.len() > 0,
        TermV::Compound(c) => c.name.len() > 0 && c.arity == c.args.len() && c.args.len() >= 1
            && forall|i: int| 0 <= i < c.args.len() ==> wf_term(#[trigger] c.args[i]),
    }
}

/// The end of the whitespace run starting at `i`.
pub open spec fn ws_end(s: Seq<char>, i: int) -> int
    decreases s.len() - i,
{
    if 0 <= i < s.len() && is_space(s[i]) {
        ws_end(s, i + 1)
    } else {
        i
    }
}

/// The end of the identifier-character run starting at `i`.
pub open spec fn ident_end(s: Seq<char>, i: int) -> int
    decreases s.len() - i,
{
    if 0 <= i < s.len() && is_ident_char(s[i]) {
        ident_end(s, i + 1)
    } else {
        i
    }
}

/// The position of the first quote at or after `i` (or the end).
pub open spec fn quote_end(s: Seq<char>, i: int) -> int
    decreases s.len() - i,
{
    if 0 <= i < s.len() && s[i] != '\'' {
        quote_end(s, i + 1)
    } else {
        i
    }
}

/// A whitespace run ends at or after where it starts, within the text.
pub proof fn lemma_ws_end_range(s: Seq<char>, i: int)
    ensures
        ws_end(s, i) >= i,
        i <= s.len() ==> ws_end(s, i) <= s.len(),
    decreases s.len() - i,
{
    if 0 <= i < s.len() && is_space(s[i]) {
        lemma_ws_end_range(s, i + 1);
    }
}

/// An identifier run ends at or after where it starts, within the
/// text, and consumes at least its first identifier character.
pub proof fn lemma_ident_end_range(s: Seq<char>, i: int)
    ensures
        ident_end(s, i) >= i,
        i <= s.len() ==> ident_end(s, i) <= s.len(),
        0 <= i < s.len() && is_ident_char(s[i]) ==> ident_end(s, i) >= i + 1,
    decreases s.len() - i,
{
    if 0 <= i < s.len() && is_ident_char(s[i]) {
        lemma_ident_end_range(s, i + 1);
    }
}

/// What the term grammar accepts at position `i`, and the term and
/// end position it yields: a capitalised or underscore-led identifier
/// is a variable, a quoted nonempty text an atom, a lowercase
/// identifier an atom — or, with a parenthesis immediately after it,
/// a compound of one or more comma-separated arguments.
pub open spec fn p_term(s: Seq<char>, i: int) -> Option<(TermV, int)>
    decreases s.len() - i, 0int
        via p_term_dec
{
    if i < 0 || i >= s.len() {
        None
    } else {
        let c = s[i];
        if is_upper(c) || c == '_' {
            let j = ident_end(s, i);
            Some((TermV::Var(s.subrange(i, j)), j))
        } else if c == '\'' {
            let j = quote_end(s, i + 1);
            if j >= s.len() || j == i + 1 {
                None
            } else {
                Some((TermV::Atom(s.subrange(i + 1, j)), j + 1))
            }
        } else if !is_lower(c) {
            None
        } else {
            let j = ident_end(s, i);
            let name = s.subrange(i, j);
            if j >= s.len() || s[j] != '(' {
                Some((TermV::Atom(name), j))
            } else {
                match p_args(s, j + 1) {
                    Some((argseq, k4)) => Some(
                        (
                            TermV::Compound(
                                crate::ast::CompoundV {
                                    name: name,
                                    arity: argseq.len() as usize,
                                    args: argseq,
                                },
                            ),
                            k4,
                        ),
                    ),
                    None => None,
                }
            }
        }
    }
}

/// The argument list the grammar accepts from position `k` up to and
/// including the closing parenthesis.
pub open spec fn p_args(s: Seq<char>, k: int) -> Option<(Seq<TermV>, int)>
    decreases s.len() - k, 1int
        via p_args_dec
{
    if k < 0 || k > s.len() {
        None
    } else {
        let k1 = ws_end(s, k);
        match p_term(s, k1) {
            None => None,
            Some((t, k2)) => {
                let k3 = ws_end(s, k2);
                if k3 >= s.len() {
                    None
                } else if s[k3] == ')' {
                    Some((seq![t], k3 + 1))
                } else if s[k3] != ',' {
                    None
                } else if !(k3 + 1 > k) {
                    None
                } else {
                    match p_args(s, k3 + 1) {
                        None => None,
                        Some((rest, k4)) => Some((seq![t].add(rest), k4)),
                    }
                }
            },
        }
    }
}

#[via_fn]
proof fn p_term_dec(s: Seq<char>, i: int) {
    if 0 <= i < s.len() && is_lower(s[i]) {
        lemma_ident_end_range(s, i);
    }
}

#[via_fn]
proof fn p_args_dec(s: Seq<char>, k: int) {
    if 0 <= k <= s.len() {
        lemma_ws_end_range(s, k);
    }
}

/// What the expression grammar accepts: a term, then `.`, with
/// whitespace allowed around both, consuming the whole text.
pub open spec fn p_expression(s: Seq<char>) -> Option<TermV> {
    let i = ws_end(s, 0);
    match p_term(s, i) {
        None => None,
        Some((t, j)) => {
            let j2 = ws_end(s, j);
            if j2 < s.len() && s[j2] == '.' && ws_end(s, j2 + 1) == s.len() {
                Some(t)
            } else {
                None
            }
        },
    }
}

/// What the compound grammar accepts: a compound term consuming the
/// whole text up to trailing whitespace.
pub open spec fn p_compound(s: Seq<char>) -> Option<crate::ast::CompoundV> {
    match p_term(s, 0) {
        None => None,
        Some((t, j)) => {
            if ws_end(s, j) == s.len() {
                match t {
                    TermV::Compound(c) => Some(c),
                    _ => None,
                }
            } else {
                None
            }
        },
    }
}

/// Whether an exec character is lowercase.
fn lower(c: char) -> (r: bool)
    ensures
        r == is_lower(c),
{
    c as u32 >= 'a' as u32 && c as u32 <= 'z' as u32
}

/// Whether an exec character is uppercase.
fn upper(c: char) -> (r: bool)
    ensures
        r == is_upper(c),
{
    c as u32 >= 'A' as u32 && c as u32 <= 'Z' as u32
}

/// Whether an exec character is a digit.
fn digit(c: char) -> (r: bool)
    ensures
        r == is_digit(c),
{
    c as u32 >= '0' as u32 && c as u32 <= '9' as u32
}

/// Whether an exec character may stand in an identifier.
fn ident_char(c: char) -> (r: bool)
    ensures
        r == is_ident_char(c),
{
    lower(c) || upper(c) || digit(c) || c == '_'
}

/// Whether an exec character is whitespace.
fn space(c: char) -> (r: bool)
    ensures
        r == is_space(c),
{
    c == ' ' || c == '\t' || c == '\n' || c == '\r'
}

/// Skip whitespace from position `i`.
fn skip_ws(s: &str, i: usize, n: usize) -> (r: usize)
    requires
        n == s@.len(),
        i <= n,
    ensures
        i <= r <= n,
        forall|k: int| i <= k < r ==> is_space(#[trigger] s@[k]),
        r < n ==> !is_space(s@[r as int]),
        r == ws_end(s@, i as int),
    decreases n - i,
{
    if i < n && space(s.get_char(i)) {
        skip_ws(s, i + 1, n)
    } else {
        i
    }
}

/// The end of the identifier-character run starting at `i`.
fn scan_ident(s: &str, i: usize, n: usize) -> (r: usize)
    requires
        n == s@.len(),
        i <= n,
    ensures
        i <= r <= n,
        forall|k: int| i <= k < r ==> is_ident_char(#[trigger] s@[k]),
        r < n ==> !is_ident_char(s@[r as int]),
        r == ident_end(s@, i as int),
    decreases n - i,
{
    if i < n && ident_char(s.get_char(i)) {
        scan_ident(s, i + 1, n)
    } else {
        i
    }
}

/// The position of the first quote at or after `i`.
fn scan_quote(s: &str, i: usize, n: usize) -> (r: usize)
    requires
        n == s@.len(),
        i <= n,
    ensures
        i <= r <= n,
        r == quote_end(s@, i as int),
        r < n ==> s@[r as int] == '\'',
    decreases n - i,
{
    if i < n && s.get_char(i) != '\'' {
        scan_quote(s, i + 1, n)
    } else {
        i
    }
}

/// Parse the term starting at position `i`: exactly the term the
/// grammar accepts there.  On success the returned position is
/// strictly past `i` and the term is well-formed.
#[verifier::loop_isolation(false)]
fn parse_term_at(s: &str, i: usize, n: usize) -> (r: Result<(Term, usize), MachineError>)
    requires
        n == s@.len(),
        i <= n,
    ensures
        match r {
            Ok((t, j)) => i < j <= n && wf_term(t@) && p_term(s@, i as int) == Some(
                (t@, j as int),
            ),
            Err(e) => e == MachineError::ParseError && p_term(s@, i as int) is None,
        },
    decreases n - i,
{
    if i >= n {
        return Err(MachineError::ParseError);
    }
    let c = s.get_char(i);
    if upper(c) || c == '_' {
        let j = scan_ident(s, i, n);
        proof {
            assert(is_ident_char(s@[i as int]));
        }
        let name = s.substring_char(i, j).to_owned();
        return Ok((Term::Var(Var(name)), j));
    }
    if c == '\'' {
        let j = scan_quote(s, i + 1, n);
        if j >= n || j == i + 1 {
            return Err(MachineError::ParseError);
        }
        let name = s.substring_char(i + 1, j).to_owned();
        return Ok((Term::Atom(Atom(name)), j + 1));
    }
    if !lower(c) {
        return Err(MachineError::ParseError);
    }
    let j = scan_ident(s, i, n);
    proof {
        assert(is_ident_char(s@[i as int]));
    }
    let name = s.substring_char(i, j).to_owned();
    if !(j < n) {
        return Ok((Term::Atom(Atom(name)), j));
    }
    if s.get_char(j) != '(' {
        return Ok((Term::Atom(Atom(name)), j));
    }
    let mut args: Vec<Term> = Vec::new();
    let mut k = j + 1;
    proof {
        assert(crate::ast::terms_view(args@) =~= Seq::<TermV>::empty());
        if p_args(s@, j as int + 1) is Some {
            let rest = p_args(s@, j as int + 1).unwrap().0;
            assert(Seq::<TermV>::empty() + rest =~= rest);
        }
    }
    loop
        invariant
            i < k <= n,
            n == s@.len(),
            name@.len() > 0,
            name@ == s@.subrange(i as int, j as int),
            forall|q: int|
                0 <= q < args@.len() ==> wf_term(crate::ast::term_view(#[trigger] &args@[q])),
            ({
                let full = p_term(s@, i as int);
                match p_args(s@, k as int) {
                    Some(pr) => full == Some(
                        (
                            TermV::Compound(
                                crate::ast::CompoundV {
                                    name: name@,
                                    arity: (crate::ast::terms_view(args@) + pr.0).len() as usize,
                                    args: crate::ast::terms_view(args@) + pr.0,
                                },
                            ),
                            pr.1,
                        ),
                    ),
                    None => full is None,
                }
            }),
        decreases n - k,
    {
        let k1 = skip_ws(s, k, n);
        let (arg, k2) = match parse_term_at(s, k1, n) {
            Ok(p) => p,
            Err(e) => {
                return Err(e);
            },
        };
        let ghost argsv0 = crate::ast::terms_view(args@);
        let ghost argsraw0 = args@;
        args.push(arg);
        proof {
            crate::ast::lemma_terms_view(argsraw0);
            crate::ast::lemma_terms_view(args@);
            assert(crate::ast::terms_view(args@) =~= argsv0.push(crate::ast::term_view(&arg)));
        }
        let k3 = skip_ws(s, k2, n);
        if k3 >= n {
            return Err(MachineError::ParseError);
        }
        let d = s.get_char(k3);
        if d == ')' {
            proof {
                assert(p_args(s@, k as int) == Some(
                    (seq![crate::ast::term_view(&arg)], k3 as int + 1),
                ));
                assert(argsv0 + seq![crate::ast::term_view(&arg)] =~= crate::ast::terms_view(
                    args@,
                ));
            }
            let arity = args.len();
            let comp = Compound { name, arity, args };
            proof {
                crate::ast::lemma_terms_view(comp.args@);
                let cvw = crate::ast::compound_view(&comp);
                assert(forall|q: int|
                    0 <= q < cvw.args.len() ==> wf_term(#[trigger] cvw.args[q]));
                assert(wf_term(crate::ast::term_view(&Term::Compound(comp))));
            }
            return Ok((Term::Compound(comp), k3 + 1));
        }
        if d != ',' {
            return Err(MachineError::ParseError);
        }
        if !(k3 + 1 > k) {
            return Err(MachineError::ParseError);
        }
        proof {
            if p_args(s@, k3 as int + 1) is Some {
                let rest = p_args(s@, k3 as int + 1).unwrap().0;
                assert(p_args(s@, k as int) == Some(
                    (
                        seq![crate::ast::term_view(&arg)].add(rest),
                        p_args(s@, k3 as int + 1).unwrap().1,
                    ),
                ));
                assert(argsv0 + (seq![crate::ast::term_view(&arg)].add(rest))
                    =~= crate::ast::terms_view(args@) + rest);
            } else {
                assert(p_args(s@, k as int) is None);
            }
        }
        k = k3 + 1;
    }
}

/// Parse a whole atom token.  Succeeds exactly on a lowercase
/// identifier or a nonempty single-quoted string; a quoted atom's name
/// is the text between the quotes.
#[verifier::loop_isolation(false)]
pub fn parse_atom(s: &str) -> (r: Result<Atom, MachineError>)
    ensures
        match r {
            Ok(a) => (is_plain_atom_text(s@) || is_quoted_atom_text(s@)) && a.0@
                == atom_text_value(s@),
            Err(e) => e == MachineError::ParseError && !is_plain_atom_text(s@)
                && !is_quoted_atom_text(s@),
        },
{
    let n = s.unicode_len();
    if n == 0 {
        return Err(MachineError::ParseError);
    }
    let c0 = s.get_char(0);
    if c0 == '\'' {
        let mut j: usize = 1;
        while j < n && s.get_char(j) != '\''
            invariant
                1 <= j <= n,
                n == s@.len(),
                forall|q: int| 1 <= q < j ==> #[trigger] s@[q] != '\'',
            decreases n - j,
        {
            j = j + 1;
        }
        if j >= n || j == 1 || j + 1 != n {
            return Err(MachineError::ParseError);
        }
        let name = s.substring_char(1, j).to_owned();
        proof {
            assert(is_quoted_atom_text(s@));
        }
        return Ok(Atom(name));
    }
    if !lower(c0) {
        return Err(MachineError::ParseError);
    }
    let mut j: usize = 1;
    while j < n
        invariant
            1 <= j <= n,
            n == s@.len(),
            forall|q: int| 0 <= q < j ==> is_ident_char(#[trigger] s@[q]),
        decreases n - j,
    {
        if !ident_char(s.get_char(j)) {
            return Err(MachineError::ParseError);
        }
        j = j + 1;
    }
    proof {
        assert(is_plain_atom_text(s@));
        assert(!is_quoted_atom_text(s@));
    }
    Ok(Atom(s.to_owned()))
}

/// The value of the digits of a prefix never shrinks as the prefix
/// grows.
proof fn lemma_digits_nonneg(s: Seq<char>)
    requires
        forall|i: int| 0 <= i < s.len() ==> is_digit(#[trigger] s[i]),
    ensures
        digits_val(s) >= 0,
    decreases s.len(),
{
    if s.len() > 0 {
        lemma_digits_nonneg(s.drop_last());
    }
}

/// A longer digit prefix has at least the value of a shorter one.
proof fn lemma_digits_grow(s: Seq<char>, j: int)
    requires
        forall|i: int| 0 <= i < s.len() ==> is_digit(#[trigger] s[i]),
        0 <= j <= s.len(),
    ensures
        digits_val(s) >= digits_val(s.take(j)),
    decreases s.len() - j,
{
    if j < s.len() {
        lemma_digits_grow(s, j + 1);
        let p = s.take(j + 1);
        assert(p.drop_last() =~= s.take(j));
        lemma_digits_nonneg(s.take(j));
        assert(digits_val(s.take(j + 1)) == digits_val(s.take(j)) * 10 + (p.last() as u32
            - '0' as u32));
    } else {
        assert(s.take(j) =~= s);
    }
}

/// Parse a whole number token.  Succeeds exactly on a nonempty run of
/// digits whose value fits the result type, and returns that value.
#[verifier::loop_isolation(false)]
pub fn parse_number(s: &str) -> (r: Result<u64, MachineError>)
    ensures
        match r {
            Ok(v) => is_number_text(s@) && digits_val(s@) <= u64::MAX && v == digits_val(s@),
            Err(e) => e == MachineError::ParseError && (!is_number_text(s@) || digits_val(s@)
                > u64::MAX),
        },
{
    let n = s.unicode_len();
    if n == 0 {
        return Err(MachineError::ParseError);
    }
    let mut acc: u64 = 0;
    let mut j: usize = 0;
    while j < n
        invariant
            0 <= j <= n,
            n == s@.len(),
            forall|q: int| 0 <= q < j ==> is_digit(#[trigger] s@[q]),
            acc == digits_val(s@.take(j as int)),
        decreases n - j,
    {
        let c = s.get_char(j);
        if !digit(c) {
            return Err(MachineError::ParseError);
        }
        let d: u64 = (c as u32 - '0' as u32) as u64;
        proof {
            assert(s@.take(j + 1).drop_last() =~= s@.take(j as int));
            assert(s@.take(j + 1).last() == s@[j as int]);
        }
        if acc > (u64::MAX - d) / 10 {
            proof {
                if is_number_text(s@) {
                    lemma_digits_grow(s@, j + 1);
                    assert(acc * 10 + d > u64::MAX) by (nonlinear_arith)
                        requires
                            acc > (u64::MAX - d) / 10,
                            0 <= d <= 9,
                    ;
                }
            }
            return Err(MachineError::ParseError);
        }
        acc = acc * 10 + d;
        j = j + 1;
    }
    proof {
        assert(s@.take(n as int) =~= s@);
    }
    Ok(acc)
}

/// Parse a whole compound token: `name(arg, ..., arg)` with the
/// parenthesis immediately after the name, optionally followed by
/// whitespace.  Succeeds exactly on the text the compound grammar
/// accepts, with exactly the compound it denotes; the result is
/// well-formed.
pub fn parse_compound(s: &str) -> (r: Result<Compound, MachineError>)
    ensures
        match r {
            Ok(c) => wf_term(TermV::Compound(c@)) && p_compound(s@) == Some(c@),
            Err(e) => e == MachineError::ParseError && p_compound(s@) is None,
        },
{
    let n = s.unicode_len();
    let (t, j) = match parse_term_at(s, 0, n) {
        Ok(p) => p,
        Err(e) => {
            return Err(e);
        },
    };
    let j2 = skip_ws(s, j, n);
    if j2 != n {
        return Err(MachineError::ParseError);
    }
    match t {
        Term::Compound(c) => Ok(c),
        _ => Err(MachineError::ParseError),
    }
}

/// Parse a whole expression: a term followed by `.`, with optional
/// whitespace around both.  Succeeds exactly on the text the
/// expression grammar accepts, with exactly the term it denotes; the
/// result is well-formed.
pub fn parse_expression(s: &str) -> (r: Result<Term, MachineError>)
    ensures
        match r {
            Ok(t) => wf_term(t@) && p_expression(s@) == Some(t@),
            Err(e) => e == MachineError::ParseError && p_expression(s@) is None,
        },
{
    let n = s.unicode_len();
    let i = skip_ws(s, 0, n);
    let (t, j) = match parse_term_at(s, i, n) {
        Ok(p) => p,
        Err(e) => {
            return Err(e);
        },
    };
    let j2 = skip_ws(s, j, n);
    if j2 >= n {
        return Err(MachineError::ParseError);
    }
    if s.get_char(j2) != '.' {
        return Err(MachineError::ParseError);
    }
    let j3 = skip_ws(s, j2 + 1, n);
    if j3 != n {
        return Err(MachineError::ParseError);
    }
    Ok(t)
}

} // verus!

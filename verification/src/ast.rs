//! The term language: atoms, variables, compounds and rules, together
//! with their mathematical views, structural equality and rendering.

use vstd::prelude::*;

verus! {

/// A nullary constant.
#[derive(Debug)]
pub struct Atom(pub String);

/// A source variable; its name begins with an uppercase letter or an
/// underscore.  Equality is by name.
#[derive(Debug)]
pub struct Var(pub String);

/// A compound term `name(arg, ..., arg)`; `arity == args.len()`.
#[derive(Debug)]
pub struct Compound {
    pub name: String,
    pub arity: usize,
    pub args: Vec<Term>,
}

/// A first-order term.
#[derive(Debug)]
pub enum Term {
    Atom(Atom),
    Var(Var),
    Compound(Compound),
}

/// A rule `head :- body`, with at least one body goal.
#[derive(Debug)]
pub struct Rule {
    pub head: Compound,
    pub body: Vec<Compound>,
}

/// Mathematical image of a [`Compound`].
pub struct CompoundV {
    pub name: Seq<char>,
    pub arity: usize,
    pub args: Seq<TermV>,
}

/// Mathematical image of a [`Term`].
pub enum TermV {
    Atom(Seq<char>),
    Var(Seq<char>),
    Compound(CompoundV),
}

/// Mathematical image of a [`Rule`].
pub struct RuleV {
    pub head: CompoundV,
    pub body: Seq<CompoundV>,
}

/// The view of a term.
pub open spec fn term_view(t: &Term) -> TermV
    decreases t,
{
    match t {
        Term::Atom(a) => TermV::Atom(a.0@),
        Term::Var(v) => TermV::Var(v.0@),
        Term::Compound(c) => TermV::Compound(compound_view(c)),
    }
}

/// The view of a compound.
pub open spec fn compound_view(c: &Compound) -> CompoundV
    decreases c,
{
    CompoundV { name: c.name@, arity: c.arity, args: terms_view(c.args@) }
}

/// The view of a sequence of terms.
pub open spec fn terms_view(ts: Seq<Term>) -> Seq<TermV>
    decreases ts,
{
    if ts.len() == 0 {
        Seq::empty()
    } else {
        terms_view(ts.drop_last()).push(term_view(&ts.last()))
    }
}

/// `terms_view` maps the view over the sequence pointwise.
pub proof fn lemma_terms_view(ts: Seq<Term>)
    ensures
        terms_view(ts).len() == ts.len(),
        forall|i: int| 0 <= i < ts.len() ==> terms_view(ts)[i] == term_view(&ts[i]),
    decreases ts,
{
    if ts.len() > 0 {
        lemma_terms_view(ts.drop_last());
    }
}

impl View for Term {
    type V = TermV;

    open spec fn view(&self) -> TermV {
        term_view(self)
    }
}

impl View for Compound {
    type V = CompoundV;

    open spec fn view(&self) -> CompoundV {
        compound_view(self)
    }
}

impl View for Rule {
    type V = RuleV;

    open spec fn view(&self) -> RuleV {
        RuleV {
            head: compound_view(&self.head),
            body: self.body@.map_values(|c: Compound| compound_view(&c)),
        }
    }
}

/// Structural equality of two terms, decided at the view level.
pub fn term_eq(a: &Term, b: &Term) -> (r: bool)
    ensures
        r == (a@ == b@),
    decreases a,
{
    match (a, b) {
        (Term::Atom(x), Term::Atom(y)) => x.0 == y.0,
        (Term::Var(x), Term::Var(y)) => x.0 == y.0,
        (Term::Compound(c), Term::Compound(d)) => compound_eq(c, d),
        _ => false,
    }
}

/// Structural equality of two compounds.
pub fn compound_eq(c: &Compound, d: &Compound) -> (r: bool)
    ensures
        r == (c@ == d@),
    decreases c,
{
    proof {
        lemma_terms_view(c.args@);
        lemma_terms_view(d.args@);
    }
    if !(c.name == d.name && c.arity == d.arity && c.args.len() == d.args.len()) {
        proof {
            if c.args@.len() != d.args@.len() {
                assert(c@.args.len() != d@.args.len());
            }
        }
        return false;
    }
    let n = c.args.len();
    let mut i: usize = 0;
    while i < n
        invariant
            i <= n,
            n == c.args@.len() == d.args@.len(),
            c.name@ == d.name@,
            c.arity == d.arity,
            terms_view(c.args@).len() == n,
            terms_view(d.args@).len() == n,
            forall|j: int| 0 <= j < i ==> terms_view(c.args@)[j] == terms_view(d.args@)[j],
            forall|j: int| 0 <= j < c.args@.len() ==> terms_view(c.args@)[j] == term_view(
                &c.args@[j],
            ),
            forall|j: int| 0 <= j < d.args@.len() ==> terms_view(d.args@)[j] == term_view(
                &d.args@[j],
            ),
        decreases n - i,
    {
        if !term_eq(&c.args[i], &d.args[i]) {
            proof {
                assert(terms_view(c.args@)[i as int] != terms_view(d.args@)[i as int]);
                assert(c@.args != d@.args);
            }
            return false;
        }
        i = i + 1;
    }
    proof {
        assert(terms_view(c.args@) =~= terms_view(d.args@));
    }
    true
}

impl Clone for Atom {
    fn clone(&self) -> (r: Atom)
        ensures
            r.0@ == self.0@,
    {
        Atom(self.0.clone())
    }
}

impl Clone for Var {
    fn clone(&self) -> (r: Var)
        ensures
            r.0@ == self.0@,
    {
        Var(self.0.clone())
    }
}

impl Clone for Term {
    fn clone(&self) -> (r: Term)
        ensures
            r@ == self@,
        decreases self,
    {
        match self {
            Term::Atom(a) => Term::Atom(a.clone()),
            Term::Var(v) => Term::Var(v.clone()),
            Term::Compound(c) => Term::Compound(c.clone()),
        }
    }
}

impl Clone for Compound {
    fn clone(&self) -> (r: Compound)
        ensures
            r@ == self@,
        decreases self,
    {
        proof {
            lemma_terms_view(self.args@);
        }
        let mut args: Vec<Term> = Vec::new();
        let n = self.args.len();
        let mut i: usize = 0;
        while i < n
            invariant
                i <= n,
                n == self.args@.len(),
                args@.len() == i,
                forall|j: int| 0 <= j < i ==> #[trigger] term_view(&args@[j])
                    == term_view(&self.args@[j]),
            decreases n - i,
        {
            let t = self.args[i].clone();
            args.push(t);
            i = i + 1;
        }
        proof {
            lemma_terms_view(args@);
            lemma_terms_view(self.args@);
            assert(terms_view(args@) =~= terms_view(self.args@));
        }
        Compound { name: self.name.clone(), arity: self.arity, args }
    }
}

impl Clone for Rule {
    fn clone(&self) -> (r: Rule)
        ensures
            r@ == self@,
    {
        let mut body: Vec<Compound> = Vec::new();
        let n = self.body.len();
        let mut i: usize = 0;
        while i < n
            invariant
                i <= n,
                n == self.body@.len(),
                body@.len() == i,
                forall|j: int| 0 <= j < i ==> #[trigger] compound_view(&body@[j])
                    == compound_view(&self.body@[j]),
            decreases n - i,
        {
            let c = self.body[i].clone();
            body.push(c);
            i = i + 1;
        }
        let r = Rule { head: self.head.clone(), body };
        proof {
            assert(r@.body =~= self@.body);
        }
        r
    }
}

/// What `structuralize` yields at the view level: atoms become nullary
/// compounds, variables nothing.
pub open spec fn structuralized(t: TermV) -> Option<CompoundV> {
    match t {
        TermV::Atom(name) => Some(CompoundV { name: name, arity: 0, args: Seq::empty() }),
        TermV::Var(_) => None,
        TermV::Compound(c) => Some(c),
    }
}

/// Anything that can be read as a compound term.
pub trait Structuralize {
    /// The compound this value stands for, if any.
    spec fn sview(&self) -> Option<CompoundV>;

    /// Read the value as a compound: an atom is a nullary compound, a
    /// variable is not a compound at all.
    fn structuralize(&self) -> (r: Option<Compound>)
        ensures
            match r {
                Some(c) => self.sview() == Some(c@),
                None => self.sview() is None,
            },
    ;
}

impl Structuralize for Term {
    open spec fn sview(&self) -> Option<CompoundV> {
        structuralized(self@)
    }

    fn structuralize(&self) -> (r: Option<Compound>) {
        match self {
            Term::Atom(a) => {
                let c = Compound { name: a.0.clone(), arity: 0, args: Vec::new() };
                proof {
                    assert(c@.args =~= Seq::<TermV>::empty());
                }
                Some(c)
            },
            Term::Var(_) => None,
            Term::Compound(c) => Some(c.clone()),
        }
    }
}

impl Structuralize for Compound {
    open spec fn sview(&self) -> Option<CompoundV> {
        Some(self@)
    }

    fn structuralize(&self) -> (r: Option<Compound>) {
        Some(self.clone())
    }
}

/// The text a term renders to: an atom or variable is its name, a
/// compound is `name(arg, ..., arg)` with `, ` between arguments.
pub open spec fn term_text(t: TermV) -> Seq<char>
    decreases t,
{
    match t {
        TermV::Atom(name) => name,
        TermV::Var(name) => name,
        TermV::Compound(c) => if c.args.len() == 0 {
            c.name
        } else {
            c.name + "("@ + args_text(c.args) + ")"@
        },
    }
}

/// The text of an argument list, separated by `, `.
pub open spec fn args_text(args: Seq<TermV>) -> Seq<char>
    decreases args,
{
    if args.len() == 0 {
        Seq::empty()
    } else if args.len() == 1 {
        term_text(args.last())
    } else {
        args_text(args.drop_last()) + ", "@ + term_text(args.last())
    }
}

impl Term {
    /// Render the term as text.
    pub fn to_text(&self) -> (r: String)
        ensures
            r@ == term_text(self@),
        decreases self,
    {
        match self {
            Term::Atom(a) => a.0.clone(),
            Term::Var(v) => v.0.clone(),
            Term::Compound(c) => c.to_text(),
        }
    }
}

impl Compound {
    /// Render the compound as text.
    pub fn to_text(&self) -> (r: String)
        ensures
            r@ == term_text(TermV::Compound(self@)),
        decreases self,
    {
        proof {
            lemma_terms_view(self.args@);
        }
        let mut s = self.name.clone();
        if self.args.len() == 0 {
            return s;
        }
        s.append("(");
        let n = self.args.len();
        let mut i: usize = 0;
        while i < n
            invariant
                1 <= n == self.args@.len(),
                i <= n,
                terms_view(self.args@).len() == n,
                forall|j: int| 0 <= j < self.args@.len() ==> terms_view(self.args@)[j]
                    == term_view(&self.args@[j]),
                i > 0 ==> s@ == self.name@ + "("@ + args_text(
                    terms_view(self.args@).take(i as int),
                ),
                i == 0 ==> s@ == self.name@ + "("@,
            decreases n - i,
        {
            if i > 0 {
                s.append(", ");
            }
            let t = self.args[i].to_text();
            s.append(t.as_str());
            i = i + 1;
            proof {
                let vs = terms_view(self.args@);
                assert(vs.take(i as int).drop_last() =~= vs.take(i - 1));
                assert(vs.take(i as int).last() == vs[i - 1]);
                if i == 1 {
                    assert(args_text(vs.take(1)) == term_text(vs[0]));
                }
            }
        }
        s.append(")");
        proof {
            assert(terms_view(self.args@).take(n as int) =~= terms_view(self.args@));
        }
        s
    }
}

} // verus!

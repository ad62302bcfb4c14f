//! Evaluation of combinators by term rewriting.

use vstd::prelude::*;
use vstd::std_specs::cmp::PartialEqSpecImpl;
use vstd::std_specs::convert::FromSpecImpl;

use crate::cam::{SpecStaticCombinator, StaticCombinator};
use crate::text::{decimal, decimal_string};

verus! {

/// A static or dynamic combinator. This representation is for implementing
/// evaluation by term rewriting.
#[derive(Debug)]
pub enum Combinator {
    /// The `App` combinator. `App(Λ(x)y, z) = x(y, z)`
    App,
    /// Applies a combinator to another.
    Apply(Box<Combinator>, Box<Combinator>),
    /// The composition combinator. `(x∘y)z = x(yz)`
    Com(Box<Combinator>, Box<Combinator>),
    /// The dynamic pair combinator, `(,)`.
    DPair(Box<Combinator>, Box<Combinator>),
    /// The `Fst` combinator. `Fst(x, y) = x`
    Fst,
    /// The `Λ` combinator. `App(Λ(x)y, z) = x(y, z)`
    Lam(Box<Combinator>),
    /// A bare name.
    Name(String),
    /// A bare number.
    Num(u32),
    /// The `<,>` combinator. `<x, y>z = (xz, yz)`
    Pair(Box<Combinator>, Box<Combinator>),
    /// The `'` combinator. `'xy = x`
    Quote(Box<Combinator>),
    /// The `Snd` combinator. `Snd(x, y) = y`
    Snd,
}

/// The mathematical value of a [`Combinator`].
pub enum SpecCombinator {
    App,
    Apply(Box<SpecCombinator>, Box<SpecCombinator>),
    Com(Box<SpecCombinator>, Box<SpecCombinator>),
    DPair(Box<SpecCombinator>, Box<SpecCombinator>),
    Fst,
    Lam(Box<SpecCombinator>),
    Name(Seq<char>),
    Num(u32),
    Pair(Box<SpecCombinator>, Box<SpecCombinator>),
    Quote(Box<SpecCombinator>),
    Snd,
}

/// What the application of `l` to `r` rewrites to, where both have been
/// rewritten already. The first rule that matches is taken:
/// a quotation drops its argument; a composition applies its right side
/// first; a pair former hands its argument to both sides and makes a pair of
/// the results; `App` on a pair whose left side is a closure, a `Λ` applied
/// to its environment, runs the body on the environment paired with the
/// right side; `Fst` and `Snd` take a pair apart. Where none matches, the
/// application stays.
pub open spec fn rewrite(l: SpecCombinator, r: SpecCombinator) -> SpecCombinator {
    let stuck = SpecCombinator::Apply(Box::new(l), Box::new(r));
    match l {
        SpecCombinator::Quote(x) => *x,
        SpecCombinator::Com(a, b) => SpecCombinator::Apply(
            a,
            Box::new(SpecCombinator::Apply(b, Box::new(r))),
        ),
        SpecCombinator::Pair(a, b) => SpecCombinator::DPair(
            Box::new(SpecCombinator::Apply(a, Box::new(r))),
            Box::new(SpecCombinator::Apply(b, Box::new(r))),
        ),
        SpecCombinator::App => match r {
            SpecCombinator::DPair(rl, rr) => match *rl {
                SpecCombinator::Apply(f, env) => match *f {
                    SpecCombinator::Lam(body) => SpecCombinator::Apply(
                        body,
                        Box::new(SpecCombinator::DPair(env, rr)),
                    ),
                    _ => stuck,
                },
                _ => stuck,
            },
            _ => stuck,
        },
        SpecCombinator::Fst => match r {
            SpecCombinator::DPair(x, _) => *x,
            _ => stuck,
        },
        SpecCombinator::Snd => match r {
            SpecCombinator::DPair(_, x) => *x,
            _ => stuck,
        },
        _ => stuck,
    }
}

impl SpecCombinator {
    /// The text of a combinator.
    pub open spec fn display(self) -> Seq<char>
        decreases self,
    {
        match self {
            SpecCombinator::App => "App"@,
            SpecCombinator::Apply(l, r) => "("@ + l.display() + " "@ + r.display() + ")"@,
            SpecCombinator::Com(l, r) => "("@ + l.display() + " ∘ "@ + r.display() + ")"@,
            SpecCombinator::DPair(l, r) => "("@ + l.display() + ","@ + r.display() + ")"@,
            SpecCombinator::Fst => "Fst"@,
            SpecCombinator::Lam(b) => "Λ("@ + b.display() + ")"@,
            SpecCombinator::Name(x) => x,
            SpecCombinator::Num(n) => decimal(n as nat),
            SpecCombinator::Pair(l, r) => "<"@ + l.display() + ","@ + r.display() + ">"@,
            SpecCombinator::Quote(x) => "'"@ + x.display(),
            SpecCombinator::Snd => "Snd"@,
        }
    }

    /// One pass of rewriting: every part of the term is rewritten once, the
    /// parts of an application before the application itself.
    pub open spec fn step(self) -> SpecCombinator
        decreases self,
    {
        match self {
            SpecCombinator::Apply(l, r) => rewrite(l.step(), r.step()),
            SpecCombinator::Com(l, r) => SpecCombinator::Com(
                Box::new(l.step()),
                Box::new(r.step()),
            ),
            SpecCombinator::DPair(l, r) => SpecCombinator::DPair(
                Box::new(l.step()),
                Box::new(r.step()),
            ),
            SpecCombinator::Pair(l, r) => SpecCombinator::Pair(
                Box::new(l.step()),
                Box::new(r.step()),
            ),
            SpecCombinator::Lam(b) => SpecCombinator::Lam(Box::new(b.step())),
            SpecCombinator::Quote(x) => SpecCombinator::Quote(Box::new(x.step())),
            _ => self,
        }
    }

    /// The term after `n` passes.
    pub open spec fn iterate(self, n: nat) -> SpecCombinator
        decreases n,
    {
        if n == 0 {
            self
        } else {
            self.step().iterate((n - 1) as nat)
        }
    }

    /// Whether a pass leaves the term as it is.
    pub open spec fn is_normal(self) -> bool {
        self.step() == self
    }

    /// Whether the term is normal after `n` passes.
    pub open spec fn normalizes_within(self, n: nat) -> bool {
        self.iterate(n).is_normal()
    }

    /// Whether the term is normal after some number of passes.
    pub open spec fn normalizes(self) -> bool {
        exists|n: nat| self.normalizes_within(n)
    }

    /// The normal form of a term that has one.
    pub open spec fn normal_form(self) -> SpecCombinator {
        self.iterate(choose|n: nat| self.normalizes_within(n))
    }
}

impl SpecStaticCombinator {
    /// The static combinator as a term of the dynamic algebra.
    pub open spec fn lift(self) -> SpecCombinator
        decreases self,
    {
        match self {
            SpecStaticCombinator::App => SpecCombinator::App,
            SpecStaticCombinator::Com(l, r) => SpecCombinator::Com(
                Box::new(l.lift()),
                Box::new(r.lift()),
            ),
            SpecStaticCombinator::Fst => SpecCombinator::Fst,
            SpecStaticCombinator::Lam(b) => SpecCombinator::Lam(Box::new(b.lift())),
            SpecStaticCombinator::Pair(l, r) => SpecCombinator::Pair(
                Box::new(l.lift()),
                Box::new(r.lift()),
            ),
            SpecStaticCombinator::QuoteName(x) => SpecCombinator::Quote(
                Box::new(SpecCombinator::Name(x)),
            ),
            SpecStaticCombinator::QuoteNum(n) => SpecCombinator::Quote(
                Box::new(SpecCombinator::Num(n)),
            ),
            SpecStaticCombinator::Snd => SpecCombinator::Snd,
        }
    }
}

impl Combinator {
    /// The mathematical value of the combinator.
    pub open spec fn model(self) -> SpecCombinator
        decreases self,
    {
        match self {
            Combinator::App => SpecCombinator::App,
            Combinator::Apply(l, r) => SpecCombinator::Apply(
                Box::new(l.model()),
                Box::new(r.model()),
            ),
            Combinator::Com(l, r) => SpecCombinator::Com(Box::new(l.model()), Box::new(r.model())),
            Combinator::DPair(l, r) => SpecCombinator::DPair(
                Box::new(l.model()),
                Box::new(r.model()),
            ),
            Combinator::Fst => SpecCombinator::Fst,
            Combinator::Lam(b) => SpecCombinator::Lam(Box::new(b.model())),
            Combinator::Name(x) => SpecCombinator::Name(x@),
            Combinator::Num(n) => SpecCombinator::Num(n),
            Combinator::Pair(l, r) => SpecCombinator::Pair(
                Box::new(l.model()),
                Box::new(r.model()),
            ),
            Combinator::Quote(x) => SpecCombinator::Quote(Box::new(x.model())),
            Combinator::Snd => SpecCombinator::Snd,
        }
    }

    /// Renders the combinator as text.
    pub fn to_string(&self) -> (s: String)
        ensures
            s@ == self@.display(),
        decreases *self,
    {
        match self {
            Combinator::App => String::from_str("App"),
            Combinator::Apply(l, r) => {
                let mut s = String::from_str("(");
                let left = (&**l).to_string();
                s.append(left.as_str());
                s.append(" ");
                let right = (&**r).to_string();
                s.append(right.as_str());
                s.append(")");
                s
            },
            Combinator::Com(l, r) => {
                let mut s = String::from_str("(");
                let left = (&**l).to_string();
                s.append(left.as_str());
                s.append(" ∘ ");
                let right = (&**r).to_string();
                s.append(right.as_str());
                s.append(")");
                s
            },
            Combinator::DPair(l, r) => {
                let mut s = String::from_str("(");
                let left = (&**l).to_string();
                s.append(left.as_str());
                s.append(",");
                let right = (&**r).to_string();
                s.append(right.as_str());
                s.append(")");
                s
            },
            Combinator::Fst => String::from_str("Fst"),
            Combinator::Lam(b) => {
                let mut s = String::from_str("Λ(");
                let body = (&**b).to_string();
                s.append(body.as_str());
                s.append(")");
                s
            },
            Combinator::Name(x) => x.clone(),
            Combinator::Num(n) => decimal_string(*n as u64),
            Combinator::Pair(l, r) => {
                let mut s = String::from_str("<");
                let left = (&**l).to_string();
                s.append(left.as_str());
                s.append(",");
                let right = (&**r).to_string();
                s.append(right.as_str());
                s.append(">");
                s
            },
            Combinator::Quote(x) => {
                let mut s = String::from_str("'");
                let inner = (&**x).to_string();
                s.append(inner.as_str());
                s
            },
            Combinator::Snd => String::from_str("Snd"),
        }
    }

    /// Attempts to evaluate the expression by one pass of rewriting. If the
    /// value is not actually modified, the evaluation has completed.
    pub fn eval_step(self) -> (c: Combinator)
        ensures
            c@ == self@.step(),
        decreases self,
    {
        proof {
            reveal_with_fuel(Combinator::model, 4);
        }
        match self {
            Combinator::Apply(l, r) => match ((*l).eval_step(), (*r).eval_step()) {
                (Combinator::Quote(x), _) => *x,  // 'xy = x
                (Combinator::Com(ll, lr), r) => {
                    // (x∘y)z = x(yz)
                    Combinator::Apply(ll, Box::new(Combinator::Apply(lr, Box::new(r))))
                },
                (Combinator::Pair(ll, lr), r) => {
                    // <x, y>z = (xz, yz)
                    let copy = r.clone();
                    Combinator::DPair(
                        Box::new(Combinator::Apply(ll, Box::new(copy))),
                        Box::new(Combinator::Apply(lr, Box::new(r))),
                    )
                },
                (Combinator::App, Combinator::DPair(rl, rr)) => match *rl {
                    Combinator::Apply(rll, rlr) => match *rll {
                        // App(Λ(x)y, z) = x(y, z)
                        Combinator::Lam(body) => Combinator::Apply(
                            body,
                            Box::new(Combinator::DPair(rlr, rr)),
                        ),
                        rll => Combinator::Apply(
                            Box::new(Combinator::App),
                            Box::new(
                                Combinator::DPair(
                                    Box::new(Combinator::Apply(Box::new(rll), rlr)),
                                    rr,
                                ),
                            ),
                        ),
                    },
                    rl => Combinator::Apply(
                        Box::new(Combinator::App),
                        Box::new(Combinator::DPair(Box::new(rl), rr)),
                    ),
                },
                (Combinator::Fst, Combinator::DPair(x, _)) => *x,  // Fst(x, y) = x
                (Combinator::Snd, Combinator::DPair(_, x)) => *x,  // Snd(x, y) = y
                (l, r) => Combinator::Apply(Box::new(l), Box::new(r)),
            },
            // The rest of the cases recurse down to evaluate lower in the tree.
            Combinator::Com(l, r) => Combinator::Com(
                Box::new((*l).eval_step()),
                Box::new((*r).eval_step()),
            ),
            Combinator::DPair(l, r) => Combinator::DPair(
                Box::new((*l).eval_step()),
                Box::new((*r).eval_step()),
            ),
            Combinator::Pair(l, r) => Combinator::Pair(
                Box::new((*l).eval_step()),
                Box::new((*r).eval_step()),
            ),
            Combinator::Lam(c) => Combinator::Lam(Box::new((*c).eval_step())),
            Combinator::Quote(c) => Combinator::Quote(Box::new((*c).eval_step())),
            Combinator::App => Combinator::App,
            Combinator::Fst => Combinator::Fst,
            Combinator::Name(n) => Combinator::Name(n),
            Combinator::Num(n) => Combinator::Num(n),
            Combinator::Snd => Combinator::Snd,
        }
    }

    /// Evaluates a combinator expression fully: rewrites it until a pass
    /// leaves it as it is. A term without a normal form would be rewritten
    /// for ever, so the caller has to know that there is one.
    pub fn eval(self) -> (c: Combinator)
        requires
            self@.normalizes(),
        ensures
            c@ == self@.normal_form(),
            c@.is_normal(),
    {
        let ghost start = self@;
        let ghost mut fuel: nat = choose|n: nat| self@.normalizes_within(n);
        let mut current = self;
        loop
            invariant
                current@.normalizes_within(fuel),
                current@.normal_form() == start.normal_form(),
            ensures
                current@ == start.normal_form(),
                current@.is_normal(),
            decreases fuel,
        {
            let last = current.clone();
            current = current.eval_step();
            if current == last {
                proof {
                    lemma_normal_form_unique(last@, 0);
                }
                break ;
            }
            proof {
                lemma_normal_form_unique(last@, fuel);
                lemma_normal_form_step(last@);
                fuel = (fuel - 1) as nat;
            }
        }
        current
    }

    /// Evaluates a combinator expression for at most `limit` passes. The
    /// result is the normal form if one of these passes shows that the term
    /// is normal, that is, if the term is normal after fewer than `limit`
    /// passes; otherwise there is none.
    pub fn eval_within(self, limit: usize) -> (r: Option<Combinator>)
        ensures
            r is Some <==> exists|k: nat| k < limit && self@.normalizes_within(k),
            r matches Some(c) ==> self@.normalizes() && c@ == self@.normal_form(),
    {
        let ghost start = self@;
        let mut current = self;
        let mut passes: usize = 0;
        while passes < limit
            invariant
                passes <= limit,
                start == self@,
                current@ == start.iterate(passes as nat),
                forall|k: nat| k < passes ==> !start.normalizes_within(k),
            decreases limit - passes,
        {
            let last = current.clone();
            current = current.eval_step();
            if current == last {
                proof {
                    assert(start.normalizes_within(passes as nat));
                    lemma_normal_form_unique(start, passes as nat);
                }
                return Some(current);
            }
            proof {
                lemma_iterate_add(start, passes as nat, 1);
                reveal_with_fuel(SpecCombinator::iterate, 2);
            }
            passes += 1;
        }
        None
    }

    /// The terms that a combinator expression goes through, pass by pass,
    /// from the expression itself to its normal form, or to the term after
    /// `limit` passes where no earlier one is normal. Where the list holds
    /// at most `limit` terms, its last term is normal.
    pub fn trace_within(self, limit: usize) -> (steps: Vec<Combinator>)
        ensures
            1 <= steps@.len() <= limit + 1,
            forall|i: int| 0 <= i < steps@.len() ==> steps@[i]@ == self@.iterate(i as nat),
            forall|k: nat| k + 1 < steps@.len() ==> !self@.normalizes_within(k),
            steps@.len() <= limit ==> self@.normalizes_within((steps@.len() - 1) as nat),
    {
        let ghost start = self@;
        let mut steps: Vec<Combinator> = Vec::new();
        let mut current = self;
        let mut done = false;
        while !done && steps.len() < limit
            invariant
                start == self@,
                steps@.len() <= limit,
                current@ == start.iterate(steps@.len()),
                forall|i: int| 0 <= i < steps@.len() ==> steps@[i]@ == start.iterate(i as nat),
                forall|k: nat| k < steps@.len() ==> !start.normalizes_within(k),
                done ==> start.normalizes_within(steps@.len()),
            decreases limit - steps@.len() + (if done { 0int } else { 1int }),
        {
            let next = current.clone().eval_step();
            if next == current {
                done = true;
            } else {
                proof {
                    lemma_iterate_add(start, steps@.len(), 1);
                    reveal_with_fuel(SpecCombinator::iterate, 2);
                }
                steps.push(current);
                current = next;
            }
        }
        steps.push(current);
        steps
    }
}

impl View for Combinator {
    type V = SpecCombinator;

    open spec fn view(&self) -> SpecCombinator {
        self.model()
    }
}

impl Clone for Combinator {
    fn clone(&self) -> (c: Combinator)
        ensures
            c == *self,
        decreases *self,
    {
        match self {
            Combinator::App => Combinator::App,
            Combinator::Apply(l, r) => Combinator::Apply(
                Box::new((&**l).clone()),
                Box::new((&**r).clone()),
            ),
            Combinator::Com(l, r) => Combinator::Com(
                Box::new((&**l).clone()),
                Box::new((&**r).clone()),
            ),
            Combinator::DPair(l, r) => Combinator::DPair(
                Box::new((&**l).clone()),
                Box::new((&**r).clone()),
            ),
            Combinator::Fst => Combinator::Fst,
            Combinator::Lam(b) => Combinator::Lam(Box::new((&**b).clone())),
            Combinator::Name(x) => Combinator::Name(x.clone()),
            Combinator::Num(n) => Combinator::Num(*n),
            Combinator::Pair(l, r) => Combinator::Pair(
                Box::new((&**l).clone()),
                Box::new((&**r).clone()),
            ),
            Combinator::Quote(x) => Combinator::Quote(Box::new((&**x).clone())),
            Combinator::Snd => Combinator::Snd,
        }
    }
}

impl PartialEq for Combinator {
    fn eq(&self, other: &Combinator) -> (r: bool)
        decreases *self,
    {
        match self {
            Combinator::App => match other {
                Combinator::App => true,
                _ => false,
            },
            Combinator::Apply(l1, r1) => match other {
                Combinator::Apply(l2, r2) => (&**l1).eq(&**l2) && (&**r1).eq(&**r2),
                _ => false,
            },
            Combinator::Com(l1, r1) => match other {
                Combinator::Com(l2, r2) => (&**l1).eq(&**l2) && (&**r1).eq(&**r2),
                _ => false,
            },
            Combinator::DPair(l1, r1) => match other {
                Combinator::DPair(l2, r2) => (&**l1).eq(&**l2) && (&**r1).eq(&**r2),
                _ => false,
            },
            Combinator::Fst => match other {
                Combinator::Fst => true,
                _ => false,
            },
            Combinator::Lam(b1) => match other {
                Combinator::Lam(b2) => (&**b1).eq(&**b2),
                _ => false,
            },
            Combinator::Name(x1) => match other {
                Combinator::Name(x2) => *x1 == *x2,
                _ => false,
            },
            Combinator::Num(n1) => match other {
                Combinator::Num(n2) => *n1 == *n2,
                _ => false,
            },
            Combinator::Pair(l1, r1) => match other {
                Combinator::Pair(l2, r2) => (&**l1).eq(&**l2) && (&**r1).eq(&**r2),
                _ => false,
            },
            Combinator::Quote(x1) => match other {
                Combinator::Quote(x2) => (&**x1).eq(&**x2),
                _ => false,
            },
            Combinator::Snd => match other {
                Combinator::Snd => true,
                _ => false,
            },
        }
    }
}

impl PartialEqSpecImpl for Combinator {
    open spec fn obeys_eq_spec() -> bool {
        true
    }

    open spec fn eq_spec(&self, other: &Combinator) -> bool {
        self@ == other@
    }
}

/// The static combinator as a term of the dynamic algebra, with the names
/// that it holds.
pub open spec fn lifted(c: StaticCombinator) -> Combinator
    decreases c,
{
    match c {
        StaticCombinator::App => Combinator::App,
        StaticCombinator::Com(l, r) => Combinator::Com(
            Box::new(lifted(*l)),
            Box::new(lifted(*r)),
        ),
        StaticCombinator::Fst => Combinator::Fst,
        StaticCombinator::Lam(b) => Combinator::Lam(Box::new(lifted(*b))),
        StaticCombinator::Pair(l, r) => Combinator::Pair(
            Box::new(lifted(*l)),
            Box::new(lifted(*r)),
        ),
        StaticCombinator::QuoteName(n) => Combinator::Quote(Box::new(Combinator::Name(n))),
        StaticCombinator::QuoteNum(n) => Combinator::Quote(Box::new(Combinator::Num(n))),
        StaticCombinator::Snd => Combinator::Snd,
    }
}

/// The value of a lifted combinator is the lift of its value.
pub proof fn lemma_lifted_model(c: StaticCombinator)
    ensures
        lifted(c)@ == c@.lift(),
    decreases c,
{
    reveal_with_fuel(Combinator::model, 2);
    match c {
        StaticCombinator::Com(l, r) => {
            lemma_lifted_model(*l);
            lemma_lifted_model(*r);
        },
        StaticCombinator::Lam(b) => {
            lemma_lifted_model(*b);
        },
        StaticCombinator::Pair(l, r) => {
            lemma_lifted_model(*l);
            lemma_lifted_model(*r);
        },
        _ => {},
    }
}

impl From<StaticCombinator> for Combinator {
    fn from(c: StaticCombinator) -> (r: Combinator)
        ensures
            r@ == c@.lift(),
        decreases c,
    {
        proof {
            lemma_lifted_model(c);
        }
        match c {
            StaticCombinator::App => Combinator::App,
            StaticCombinator::Com(l, r) => Combinator::Com(
                Box::new(Combinator::from(*l)),
                Box::new(Combinator::from(*r)),
            ),
            StaticCombinator::Fst => Combinator::Fst,
            StaticCombinator::Lam(b) => Combinator::Lam(Box::new(Combinator::from(*b))),
            StaticCombinator::Pair(l, r) => Combinator::Pair(
                Box::new(Combinator::from(*l)),
                Box::new(Combinator::from(*r)),
            ),
            StaticCombinator::QuoteName(n) => Combinator::Quote(Box::new(Combinator::Name(n))),
            StaticCombinator::QuoteNum(n) => Combinator::Quote(Box::new(Combinator::Num(n))),
            StaticCombinator::Snd => Combinator::Snd,
        }
    }
}

impl FromSpecImpl<StaticCombinator> for Combinator {
    open spec fn obeys_from_spec() -> bool {
        true
    }

    open spec fn from_spec(c: StaticCombinator) -> Combinator {
        lifted(c)
    }
}

impl From<StaticCombinator> for Box<Combinator> {
    fn from(c: StaticCombinator) -> (r: Box<Combinator>)
        ensures
            r@ == c@.lift(),
    {
        Box::new(Combinator::from(c))
    }
}

impl FromSpecImpl<StaticCombinator> for Box<Combinator> {
    open spec fn obeys_from_spec() -> bool {
        true
    }

    open spec fn from_spec(c: StaticCombinator) -> Box<Combinator> {
        Box::new(lifted(c))
    }
}

impl From<Box<StaticCombinator>> for Combinator {
    fn from(c: Box<StaticCombinator>) -> (r: Combinator)
        ensures
            r@ == c@.lift(),
    {
        Combinator::from(*c)
    }
}

impl FromSpecImpl<Box<StaticCombinator>> for Combinator {
    open spec fn obeys_from_spec() -> bool {
        true
    }

    open spec fn from_spec(c: Box<StaticCombinator>) -> Combinator {
        lifted(*c)
    }
}

impl From<Box<StaticCombinator>> for Box<Combinator> {
    fn from(c: Box<StaticCombinator>) -> (r: Box<Combinator>)
        ensures
            r@ == c@.lift(),
    {
        Box::new(Combinator::from(*c))
    }
}

impl FromSpecImpl<Box<StaticCombinator>> for Box<Combinator> {
    open spec fn obeys_from_spec() -> bool {
        true
    }

    open spec fn from_spec(c: Box<StaticCombinator>) -> Box<Combinator> {
        Box::new(lifted(*c))
    }
}

/// A static combinator holds no application, so as a term it is normal.
pub proof fn lemma_lift_is_normal(c: SpecStaticCombinator)
    ensures
        c.lift().is_normal(),
    decreases c,
{
    match c {
        SpecStaticCombinator::Com(l, r) => {
            lemma_lift_is_normal(*l);
            lemma_lift_is_normal(*r);
        },
        SpecStaticCombinator::Lam(b) => {
            lemma_lift_is_normal(*b);
        },
        SpecStaticCombinator::Pair(l, r) => {
            lemma_lift_is_normal(*l);
            lemma_lift_is_normal(*r);
        },
        _ => {
            reveal_with_fuel(SpecCombinator::step, 2);
        },
    }
}

/// Passes add up.
pub proof fn lemma_iterate_add(c: SpecCombinator, m: nat, n: nat)
    ensures
        c.iterate(m + n) == c.iterate(m).iterate(n),
    decreases m,
{
    if m > 0 {
        lemma_iterate_add(c.step(), (m - 1) as nat, n);
    }
}

/// A normal term stays as it is, however many passes are made.
pub proof fn lemma_normal_stays(c: SpecCombinator, n: nat)
    requires
        c.is_normal(),
    ensures
        c.iterate(n) == c,
    decreases n,
{
    if n > 0 {
        lemma_normal_stays(c, (n - 1) as nat);
    }
}

/// The normal form of a term is the term after any number of passes that
/// makes it normal.
pub proof fn lemma_normal_form_unique(c: SpecCombinator, n: nat)
    requires
        c.normalizes_within(n),
    ensures
        c.normalizes(),
        c.normal_form() == c.iterate(n),
        c.normal_form().is_normal(),
{
    let k = choose|k: nat| c.normalizes_within(k);
    if k <= n {
        lemma_iterate_add(c, k, (n - k) as nat);
        lemma_normal_stays(c.iterate(k), (n - k) as nat);
    } else {
        lemma_iterate_add(c, n, (k - n) as nat);
        lemma_normal_stays(c.iterate(n), (k - n) as nat);
    }
}

/// A pass does not change the normal form.
pub proof fn lemma_normal_form_step(c: SpecCombinator)
    requires
        c.normalizes(),
    ensures
        c.step().normalizes(),
        c.step().normal_form() == c.normal_form(),
{
    let k = choose|k: nat| c.normalizes_within(k);
    lemma_normal_form_unique(c, k);
    lemma_iterate_add(c, k, 1);
    lemma_normal_stays(c.iterate(k), 1);
    assert(c.normalizes_within(k + 1));
    lemma_normal_form_unique(c, k + 1);
    assert(c.iterate(k + 1) == c.step().iterate(k));
    lemma_normal_form_unique(c.step(), k);
}

/// Evaluation is idempotent: the normal form of a term is normal, and it is
/// its own normal form.
pub proof fn lemma_normal_form_idempotent(c: SpecCombinator)
    requires
        c.normalizes(),
    ensures
        c.normal_form().is_normal(),
        c.normal_form().normalizes(),
        c.normal_form().normal_form() == c.normal_form(),
{
    let k = choose|k: nat| c.normalizes_within(k);
    lemma_normal_form_unique(c, k);
    lemma_normal_form_unique(c.normal_form(), 0);
}

} // verus!

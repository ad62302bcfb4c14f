//! Compiled code computes what the source means: the term that a closed,
//! well-typed program is compiled to rewrites to the program's value.

use vstd::prelude::*;

use crate::ast::{SpecExpr, Type};
use crate::cam::eval::{
    lemma_iterate_add, lemma_lift_is_normal, lemma_normal_form_unique, lemma_normal_stays, rewrite,
    SpecCombinator,
};
use crate::cam::{projection, SpecStaticCombinator};
use crate::nameless::{
    binder_index, closed_in, lemma_closed_has_nameless_form, nameless_of, SpecNamelessExpr,
};
use crate::semantics::{lemma_value_of_more_fuel, lookup_value, value_of, Value};
use crate::tyck::{binder_names, builtin_scope, lookup, type_of};

verus! {

/// Whether a term is a closure: a `Λ` applied to its environment. No rule
/// rewrites a closure as a whole.
pub open spec fn is_closure(t: SpecCombinator) -> bool {
    t matches SpecCombinator::Apply(f, _) && *f is Lam
}

/// The term that `App` makes of a closure and an argument: the closure's
/// body applied to its environment paired with the argument.
pub open spec fn entered(closure: SpecCombinator, argument: SpecCombinator) -> SpecCombinator {
    SpecCombinator::Apply(
        (*closure->Apply_0)->Lam_0,
        Box::new(SpecCombinator::DPair(closure->Apply_1, Box::new(argument))),
    )
}

/// Whether `e` has a value under `env` within `fuel`.
pub open spec fn has_value(env: Seq<(Seq<char>, Value)>, e: SpecExpr, fuel: nat) -> bool {
    value_of(env, e, fuel) is Some
}

/// The bindings under which the body of the function `v` runs on `operand`.
pub open spec fn call_bindings(v: Value, operand: Value) -> Seq<(Seq<char>, Value)> {
    v->Closure_0.push((v->Closure_1, operand))
}

/// Whether a term rewrites to a closure.
pub open spec fn becomes_closure(t: SpecCombinator) -> bool {
    exists|k: nat| is_closure(#[trigger] t.iterate(k))
}

/// Whether a term rewrites to the number `n`.
pub open spec fn becomes_num(t: SpecCombinator, n: u32) -> bool {
    exists|k: nat| #[trigger] t.iterate(k) == SpecCombinator::Num(n)
}

/// Whether a term rewrites to a pair.
pub open spec fn becomes_pair(t: SpecCombinator) -> bool {
    exists|k: nat| #[trigger] t.iterate(k) is DPair
}

/// The case that a closure of the term `t`, taken after `k` passes, is
/// entered on the term `s` for the operand `operand`. This names the case
/// and holds of every one.
pub open spec fn entering(t: SpecCombinator, k: nat, operand: Value, s: SpecCombinator) -> bool {
    true
}

/// The case that the term `t` is looked at after `k` passes. This names the
/// case and holds of every one.
pub open spec fn observing(t: SpecCombinator, k: nat) -> bool {
    true
}

/// Whether the term `t`, if it is a closure after `k` passes, then computes
/// what the function `v` of type `ty` returns, when it is entered on a term
/// `s` that computes `operand`.
pub open spec fn applies(
    ty: Type,
    v: Value,
    t: SpecCombinator,
    k: nat,
    operand: Value,
    s: SpecCombinator,
) -> bool
    decreases ty, 0nat,
{
    match ty {
        Type::Int => true,
        Type::Arr(a, b) => is_closure(t.iterate(k)) && computes(*a, operand, s) ==> exists|
            fuel: nat,
        |
            #[trigger] has_value(call_bindings(v, operand), *v->Closure_2, fuel) && computes(
                *b,
                value_of(call_bindings(v, operand), *v->Closure_2, fuel)->Some_0,
                entered(t.iterate(k), s),
            ),
    }
}

/// Whether the term `t` computes the value `v` of type `ty`. A term computes
/// a number if it rewrites to it. A term computes a function if it rewrites
/// to a closure, and if that closure, at whatever pass it is taken and on
/// whatever term that computes an argument it is entered, computes what the
/// function returns for that argument.
pub open spec fn computes(ty: Type, v: Value, t: SpecCombinator) -> bool
    decreases ty, 1nat,
{
    match ty {
        Type::Int => v matches Value::Num(n) && becomes_num(t, n),
        Type::Arr(_, _) => {
            &&& v is Closure
            &&& becomes_closure(t)
            &&& forall|k: nat, operand: Value, s: SpecCombinator| #[trigger]
                entering(t, k, operand, s) ==> applies(ty, v, t, k, operand, s)
        },
    }
}

/// Whether the term `rho` computes the environment `env` of the binders
/// `binders`, the innermost last: it rewrites to a pair, and at whatever
/// pass that pair is taken apart, its right side computes the value of the
/// innermost binder and its left side the environment of the others.
pub open spec fn env_computes(
    binders: Seq<(Seq<char>, Type)>,
    env: Seq<(Seq<char>, Value)>,
    rho: SpecCombinator,
) -> bool
    decreases binders.len(),
{
    if binders.len() == 0 {
        env.len() == 0
    } else {
        &&& env.len() == binders.len()
        &&& env.last().0 == binders.last().0
        &&& becomes_pair(rho)
        &&& forall|k: nat| #[trigger]
            observing(rho, k) ==> (rho.iterate(k) matches SpecCombinator::DPair(x, s)
                ==> env_computes(binders.drop_last(), env.drop_last(), *x) && computes(
                binders.last().1,
                env.last().1,
                *s,
            ))
    }
}

/// A closure stays a closure.
pub proof fn lemma_closure_persists(t: SpecCombinator, n: nat)
    requires
        is_closure(t),
    ensures
        is_closure(t.iterate(n)),
    decreases n,
{
    if n > 0 {
        reveal_with_fuel(SpecCombinator::step, 2);
        lemma_closure_persists(t.step(), (n - 1) as nat);
    }
}

/// A pair stays a pair: its sides are rewritten side by side.
pub proof fn lemma_pair_persists(x: SpecCombinator, s: SpecCombinator, n: nat)
    ensures
        SpecCombinator::DPair(Box::new(x), Box::new(s)).iterate(n) == SpecCombinator::DPair(
            Box::new(x.iterate(n)),
            Box::new(s.iterate(n)),
        ),
    decreases n,
{
    if n > 0 {
        lemma_pair_persists(x.step(), s.step(), (n - 1) as nat);
    }
}

/// A term that rewrites to a number still does so after any number of
/// passes.
pub proof fn lemma_becomes_num_later(t: SpecCombinator, n: u32, m: nat)
    requires
        becomes_num(t, n),
    ensures
        becomes_num(t.iterate(m), n),
{
    let later = t.iterate(m);
    let k = choose|k: nat| t.iterate(k) == SpecCombinator::Num(n);
    if k >= m {
        lemma_iterate_add(t, m, (k - m) as nat);
        assert(later.iterate((k - m) as nat) == SpecCombinator::Num(n));
    } else {
        lemma_iterate_add(t, k, (m - k) as nat);
        lemma_normal_stays(t.iterate(k), (m - k) as nat);
        assert(later.iterate(0) == SpecCombinator::Num(n));
    }
}

/// A term that rewrites to a closure still does so after any number of
/// passes.
pub proof fn lemma_becomes_closure_later(t: SpecCombinator, m: nat)
    requires
        becomes_closure(t),
    ensures
        becomes_closure(t.iterate(m)),
{
    let later = t.iterate(m);
    let k = choose|k: nat| is_closure(t.iterate(k));
    if k >= m {
        lemma_iterate_add(t, m, (k - m) as nat);
        assert(is_closure(later.iterate((k - m) as nat)));
    } else {
        lemma_iterate_add(t, k, (m - k) as nat);
        lemma_closure_persists(t.iterate(k), (m - k) as nat);
        assert(is_closure(later.iterate(0)));
    }
}

/// A term that rewrites to a pair still does so after any number of passes.
pub proof fn lemma_becomes_pair_later(t: SpecCombinator, m: nat)
    requires
        becomes_pair(t),
    ensures
        becomes_pair(t.iterate(m)),
{
    let later = t.iterate(m);
    let k = choose|k: nat| t.iterate(k) is DPair;
    if k >= m {
        lemma_iterate_add(t, m, (k - m) as nat);
        assert(later.iterate((k - m) as nat) is DPair);
    } else {
        lemma_iterate_add(t, k, (m - k) as nat);
        let p = t.iterate(k);
        lemma_pair_persists(*p->DPair_0, *p->DPair_1, (m - k) as nat);
        assert(later.iterate(0) is DPair);
    }
}

/// What a term computes, it computes after any number of passes.
pub proof fn lemma_computes_later(ty: Type, v: Value, t: SpecCombinator, m: nat)
    requires
        computes(ty, v, t),
    ensures
        computes(ty, v, t.iterate(m)),
{
    let later = t.iterate(m);
    match ty {
        Type::Int => {
            lemma_becomes_num_later(t, v->Num_0, m);
        },
        Type::Arr(_, _) => {
            lemma_becomes_closure_later(t, m);
            assert forall|k: nat, operand: Value, s: SpecCombinator| #[trigger]
                entering(later, k, operand, s) implies applies(ty, v, later, k, operand, s) by {
                lemma_iterate_add(t, m, k);
                assert(entering(t, m + k, operand, s));
                assert(applies(ty, v, t, m + k, operand, s));
            }
        },
    }
}

/// What a term computes after a pass, it computes, unless it is a closure
/// before the pass.
pub proof fn lemma_computes_earlier(ty: Type, v: Value, t: SpecCombinator)
    requires
        computes(ty, v, t.step()),
        !is_closure(t),
    ensures
        computes(ty, v, t),
{
    let next = t.step();
    match ty {
        Type::Int => {
            let k = choose|k: nat| next.iterate(k) == SpecCombinator::Num(v->Num_0);
            assert(t.iterate(k + 1) == SpecCombinator::Num(v->Num_0));
        },
        Type::Arr(_, _) => {
            let k = choose|k: nat| is_closure(next.iterate(k));
            assert(is_closure(t.iterate(k + 1)));
            assert forall|k: nat, operand: Value, s: SpecCombinator| #[trigger]
                entering(t, k, operand, s) implies applies(ty, v, t, k, operand, s) by {
                if k > 0 {
                    assert(t.iterate(k) == next.iterate((k - 1) as nat));
                    assert(entering(next, (k - 1) as nat, operand, s));
                    assert(applies(ty, v, next, (k - 1) as nat, operand, s));
                }
            }
        },
    }
}

/// The environment that a term computes, it computes after any number of
/// passes.
pub proof fn lemma_env_computes_later(
    binders: Seq<(Seq<char>, Type)>,
    env: Seq<(Seq<char>, Value)>,
    rho: SpecCombinator,
    m: nat,
)
    requires
        env_computes(binders, env, rho),
    ensures
        env_computes(binders, env, rho.iterate(m)),
{
    let later = rho.iterate(m);
    if binders.len() > 0 {
        lemma_becomes_pair_later(rho, m);
        assert forall|k: nat| #[trigger] observing(later, k) implies (later.iterate(k) matches SpecCombinator::DPair(
            x,
            s,
        ) ==> env_computes(binders.drop_last(), env.drop_last(), *x) && computes(
            binders.last().1,
            env.last().1,
            *s,
        )) by {
            lemma_iterate_add(rho, m, k);
            assert(observing(rho, m + k));
        }
    }
}

/// The environment that a term computes after a pass, it computes, unless
/// it is a pair before the pass.
pub proof fn lemma_env_computes_earlier(
    binders: Seq<(Seq<char>, Type)>,
    env: Seq<(Seq<char>, Value)>,
    t: SpecCombinator,
)
    requires
        env_computes(binders, env, t.step()),
        !(t is DPair),
    ensures
        env_computes(binders, env, t),
{
    let next = t.step();
    if binders.len() > 0 {
        let k = choose|k: nat| next.iterate(k) is DPair;
        assert(t.iterate(k + 1) is DPair);
        assert forall|k: nat| #[trigger] observing(t, k) implies (t.iterate(k) matches SpecCombinator::DPair(
            x,
            s,
        ) ==> env_computes(binders.drop_last(), env.drop_last(), *x) && computes(
            binders.last().1,
            env.last().1,
            *s,
        )) by {
            if k > 0 {
                assert(t.iterate(k) == next.iterate((k - 1) as nat));
                assert(observing(next, (k - 1) as nat));
            }
        }
    }
}

/// A pair of a term that computes an environment and a term that computes a
/// value computes the environment with that value bound on top.
pub proof fn lemma_env_computes_pair(
    binders: Seq<(Seq<char>, Type)>,
    env: Seq<(Seq<char>, Value)>,
    rho: SpecCombinator,
    name: Seq<char>,
    ty: Type,
    v: Value,
    s: SpecCombinator,
)
    requires
        env_computes(binders, env, rho),
        env.len() == binders.len(),
        computes(ty, v, s),
    ensures
        env_computes(
            binders.push((name, ty)),
            env.push((name, v)),
            SpecCombinator::DPair(Box::new(rho), Box::new(s)),
        ),
{
    let pair = SpecCombinator::DPair(Box::new(rho), Box::new(s));
    let more_binders = binders.push((name, ty));
    let more_env = env.push((name, v));
    assert(more_binders.drop_last() =~= binders);
    assert(more_env.drop_last() =~= env);
    assert(pair.iterate(0) is DPair);
    assert forall|k: nat| #[trigger] observing(pair, k) implies (pair.iterate(k) matches SpecCombinator::DPair(
        x,
        y,
    ) ==> env_computes(more_binders.drop_last(), more_env.drop_last(), *x) && computes(
        more_binders.last().1,
        more_env.last().1,
        *y,
    )) by {
        lemma_pair_persists(rho, s, k);
        lemma_env_computes_later(binders, env, rho, k);
        lemma_computes_later(ty, v, s, k);
    }
}

/// The environment and the binders have the same names.
pub proof fn lemma_env_names(
    binders: Seq<(Seq<char>, Type)>,
    env: Seq<(Seq<char>, Value)>,
    rho: SpecCombinator,
)
    requires
        env_computes(binders, env, rho),
    ensures
        env.len() == binders.len(),
        forall|i: int| 0 <= i < binders.len() ==> (#[trigger] env[i]).0 == binders[i].0,
    decreases binders.len(),
{
    if binders.len() > 0 {
        let k = choose|k: nat| rho.iterate(k) is DPair;
        assert(observing(rho, k));
        let x = *rho.iterate(k)->DPair_0;
        lemma_env_names(binders.drop_last(), env.drop_last(), x);
        assert forall|i: int| 0 <= i < binders.len() implies (#[trigger] env[i]).0
            == binders[i].0 by {
            if i < binders.len() - 1 {
                assert(env.drop_last()[i] == env[i]);
                assert(binders.drop_last()[i] == binders[i]);
            }
        }
    }
}

/// `Snd` on a term that computes an environment computes the value of the
/// innermost binder.
pub proof fn lemma_second_computes(
    binders: Seq<(Seq<char>, Type)>,
    env: Seq<(Seq<char>, Value)>,
    rho: SpecCombinator,
    k: nat,
)
    requires
        binders.len() > 0,
        env_computes(binders, env, rho),
        rho.iterate(k) is DPair,
    ensures
        computes(
            binders.last().1,
            env.last().1,
            SpecCombinator::Apply(Box::new(SpecCombinator::Snd), Box::new(rho)),
        ),
    decreases k,
{
    let t = SpecCombinator::Apply(Box::new(SpecCombinator::Snd), Box::new(rho));
    let next = rho.step();
    reveal_with_fuel(SpecCombinator::step, 2);
    reveal_with_fuel(SpecCombinator::iterate, 2);
    assert(t.step() == rewrite(SpecCombinator::Snd, next));
    if next is DPair {
        assert(observing(rho, 1));
        assert(rho.iterate(1) == next);
        assert(t.step() == *next->DPair_1);
    } else {
        if k == 0 {
            lemma_pair_persists(*rho->DPair_0, *rho->DPair_1, 1);
        }
        assert(k >= 2);
        lemma_env_computes_later(binders, env, rho, 1);
        assert(next.iterate((k - 1) as nat) == rho.iterate(k));
        lemma_second_computes(binders, env, next, (k - 1) as nat);
    }
    lemma_computes_earlier(binders.last().1, env.last().1, t);
}

/// `Fst` on a term that computes an environment computes the environment of
/// all binders but the innermost.
pub proof fn lemma_first_computes(
    binders: Seq<(Seq<char>, Type)>,
    env: Seq<(Seq<char>, Value)>,
    rho: SpecCombinator,
    k: nat,
)
    requires
        binders.len() > 0,
        env_computes(binders, env, rho),
        rho.iterate(k) is DPair,
    ensures
        env_computes(
            binders.drop_last(),
            env.drop_last(),
            SpecCombinator::Apply(Box::new(SpecCombinator::Fst), Box::new(rho)),
        ),
    decreases k,
{
    let t = SpecCombinator::Apply(Box::new(SpecCombinator::Fst), Box::new(rho));
    let next = rho.step();
    reveal_with_fuel(SpecCombinator::step, 2);
    reveal_with_fuel(SpecCombinator::iterate, 2);
    assert(t.step() == rewrite(SpecCombinator::Fst, next));
    if next is DPair {
        assert(observing(rho, 1));
        assert(rho.iterate(1) == next);
        assert(t.step() == *next->DPair_0);
    } else {
        if k == 0 {
            lemma_pair_persists(*rho->DPair_0, *rho->DPair_1, 1);
        }
        assert(k >= 2);
        lemma_env_computes_later(binders, env, rho, 1);
        assert(next.iterate((k - 1) as nat) == rho.iterate(k));
        lemma_first_computes(binders, env, next, (k - 1) as nat);
    }
    lemma_env_computes_earlier(binders.drop_last(), env.drop_last(), t);
}

/// The projection of index `i`, on a term that computes an environment,
/// computes the value of the binder that `i` refers to.
pub proof fn lemma_projection_computes(
    binders: Seq<(Seq<char>, Type)>,
    env: Seq<(Seq<char>, Value)>,
    rho: SpecCombinator,
    i: nat,
)
    requires
        i < binders.len(),
        env_computes(binders, env, rho),
    ensures
        env.len() == binders.len(),
        computes(
            binders[binders.len() - 1 - i].1,
            env[env.len() - 1 - i].1,
            SpecCombinator::Apply(Box::new(projection(i).lift()), Box::new(rho)),
        ),
    decreases i,
{
    let code = projection(i).lift();
    let t = SpecCombinator::Apply(Box::new(code), Box::new(rho));
    let k = choose|k: nat| rho.iterate(k) is DPair;
    reveal_with_fuel(SpecStaticCombinator::lift, 2);
    reveal_with_fuel(SpecCombinator::iterate, 2);
    if i == 0 {
        lemma_second_computes(binders, env, rho, k);
    } else {
        let rest = projection((i - 1) as nat).lift();
        let next = rho.step();
        let inner = SpecCombinator::Apply(Box::new(SpecCombinator::Fst), Box::new(next));
        lemma_lift_is_normal(projection(i));
        lemma_env_computes_later(binders, env, rho, 1);
        let k1 = choose|k: nat| next.iterate(k) is DPair;
        lemma_first_computes(binders, env, next, k1);
        lemma_projection_computes(binders.drop_last(), env.drop_last(), inner, (i - 1) as nat);
        assert(t.step() == rewrite(code, next));
        assert(t.step() == SpecCombinator::Apply(Box::new(rest), Box::new(inner)));
        lemma_computes_earlier(binders[binders.len() - 1 - i].1, env[env.len() - 1 - i].1, t);
    }
}

/// A `Λ` whose body is normal, applied to an environment, is a closure at
/// every pass: only its environment is rewritten.
pub proof fn lemma_closure_iterate(body: SpecCombinator, rho: SpecCombinator, k: nat)
    requires
        body.is_normal(),
    ensures
        SpecCombinator::Apply(Box::new(SpecCombinator::Lam(Box::new(body))), Box::new(rho)).iterate(
            k,
        ) == SpecCombinator::Apply(
            Box::new(SpecCombinator::Lam(Box::new(body))),
            Box::new(rho.iterate(k)),
        ),
    decreases k,
{
    if k > 0 {
        reveal_with_fuel(SpecCombinator::step, 2);
        lemma_closure_iterate(body, rho.step(), (k - 1) as nat);
    }
}

/// `App` on a pair of a term that computes a function and a term that
/// computes an operand computes what the function returns for the operand.
pub proof fn lemma_app_computes(
    ty: Type,
    function: Value,
    operand: Value,
    g: SpecCombinator,
    s: SpecCombinator,
    k: nat,
)
    requires
        ty is Arr,
        computes(ty, function, g),
        computes(ty.domain(), operand, s),
        is_closure(g.iterate(k)),
    ensures
        exists|fuel: nat| #[trigger]
            has_value(call_bindings(function, operand), *function->Closure_2, fuel) && computes(
                ty.codomain(),
                value_of(call_bindings(function, operand), *function->Closure_2, fuel)->Some_0,
                rewrite(
                    SpecCombinator::App,
                    SpecCombinator::DPair(Box::new(g), Box::new(s)),
                ),
            ),
    decreases k,
{
    let pair = SpecCombinator::DPair(Box::new(g), Box::new(s));
    let t = rewrite(SpecCombinator::App, pair);
    if is_closure(g) {
        assert(entering(g, 0, operand, s));
        assert(applies(ty, function, g, 0, operand, s));
        assert(t == entered(g.iterate(0), s));
    } else {
        reveal_with_fuel(SpecCombinator::step, 3);
        reveal_with_fuel(SpecCombinator::iterate, 2);
        assert(t == SpecCombinator::Apply(Box::new(SpecCombinator::App), Box::new(pair)));
        assert(t.step() == rewrite(
            SpecCombinator::App,
            SpecCombinator::DPair(Box::new(g.step()), Box::new(s.step())),
        ));
        lemma_computes_later(ty, function, g, 1);
        lemma_computes_later(ty.domain(), operand, s, 1);
        assert(g.iterate(1) == g.step());
        assert(s.iterate(1) == s.step());
        assert(g.step().iterate((k - 1) as nat) == g.iterate(k));
        lemma_app_computes(ty, function, operand, g.step(), s.step(), (k - 1) as nat);
        let fuel = choose|fuel: nat| #[trigger]
            has_value(call_bindings(function, operand), *function->Closure_2, fuel) && computes(
                ty.codomain(),
                value_of(call_bindings(function, operand), *function->Closure_2, fuel)->Some_0,
                t.step(),
            );
        lemma_computes_earlier(
            ty.codomain(),
            value_of(call_bindings(function, operand), *function->Closure_2, fuel)->Some_0,
            t,
        );
        assert(has_value(call_bindings(function, operand), *function->Closure_2, fuel));
    }
}

/// The term that runs the code of the nameless expression `n` on the
/// environment `rho`.
pub open spec fn code_on(n: SpecNamelessExpr, rho: SpecCombinator) -> SpecCombinator {
    SpecCombinator::Apply(Box::new(n.combinator().lift()), Box::new(rho))
}

/// A name that a binder binds has that binder's type and that binder's
/// value.
pub proof fn lemma_bound_name(
    binders: Seq<(Seq<char>, Type)>,
    env: Seq<(Seq<char>, Value)>,
    name: Seq<char>,
)
    requires
        binder_index(binder_names(binders), name) is Some,
        env.len() == binders.len(),
        forall|i: int| 0 <= i < binders.len() ==> (#[trigger] env[i]).0 == binders[i].0,
    ensures
        binder_index(binder_names(binders), name)->Some_0 < binders.len(),
        lookup(builtin_scope() + binders, name) == Some(
            binders[binders.len() - 1 - binder_index(binder_names(binders), name)->Some_0].1,
        ),
        lookup_value(env, name) == Some(
            env[env.len() - 1 - binder_index(binder_names(binders), name)->Some_0].1,
        ),
    decreases binders.len(),
{
    let names = binder_names(binders);
    let scope = builtin_scope() + binders;
    assert(binders.len() > 0);
    assert(names.last() == binders.last().0);
    assert(scope.last() == binders.last());
    assert(env.last().0 == binders.last().0);
    if binders.last().0 != name {
        assert(names.drop_last() =~= binder_names(binders.drop_last()));
        assert(scope.drop_last() =~= builtin_scope() + binders.drop_last());
        assert forall|i: int| 0 <= i < binders.drop_last().len() implies (
        #[trigger] env.drop_last()[i]).0 == binders.drop_last()[i].0 by {
            assert(env.drop_last()[i] == env[i]);
        }
        lemma_bound_name(binders.drop_last(), env.drop_last(), name);
    }
}

/// The code of a well-typed expression whose names are all bound, run on a
/// term that computes an environment, computes the value that the
/// expression has under that environment, and it has one.
pub proof fn lemma_expression_computes(
    binders: Seq<(Seq<char>, Type)>,
    env: Seq<(Seq<char>, Value)>,
    rho: SpecCombinator,
    e: SpecExpr,
)
    requires
        type_of(builtin_scope() + binders, e) is Ok,
        closed_in(binder_names(binders), e),
        env_computes(binders, env, rho),
    ensures
        nameless_of(binder_names(binders), e) is Ok,
        exists|fuel: nat| #[trigger]
            has_value(env, e, fuel) && computes(
                type_of(builtin_scope() + binders, e)->Ok_0,
                value_of(env, e, fuel)->Some_0,
                code_on(nameless_of(binder_names(binders), e)->Ok_0, rho),
            ),
    decreases e,
{
    let scope = builtin_scope() + binders;
    let names = binder_names(binders);
    lemma_closed_has_nameless_form(names, e);
    let n = nameless_of(names, e)->Ok_0;
    let ty = type_of(scope, e)->Ok_0;
    let t = code_on(n, rho);
    lemma_lift_is_normal(n.combinator());
    match e {
        SpecExpr::App(f, a) => {
            lemma_closed_has_nameless_form(names, *f);
            lemma_closed_has_nameless_form(names, *a);
            let nf = nameless_of(names, *f)->Ok_0;
            let na = nameless_of(names, *a)->Ok_0;
            let tf = type_of(scope, *f)->Ok_0;
            let rho2 = rho.iterate(2);
            let g = code_on(nf, rho2);
            let s = code_on(na, rho2);
            lemma_env_computes_later(binders, env, rho, 2);
            lemma_expression_computes(binders, env, rho2, *f);
            lemma_expression_computes(binders, env, rho2, *a);
            let fuel_f = choose|fuel: nat| #[trigger]
                has_value(env, *f, fuel) && computes(tf, value_of(env, *f, fuel)->Some_0, g);
            let fuel_a = choose|fuel: nat| #[trigger]
                has_value(env, *a, fuel) && computes(
                    type_of(scope, *a)->Ok_0,
                    value_of(env, *a, fuel)->Some_0,
                    s,
                );
            let function = value_of(env, *f, fuel_f)->Some_0;
            let operand = value_of(env, *a, fuel_a)->Some_0;
            assert(tf is Arr);
            assert(tf.domain() == type_of(scope, *a)->Ok_0);
            assert(tf.codomain() == ty);
            let k = choose|k: nat| is_closure(g.iterate(k));
            lemma_app_computes(tf, function, operand, g, s, k);
            let fired = rewrite(
                SpecCombinator::App,
                SpecCombinator::DPair(Box::new(g), Box::new(s)),
            );
            let body = *function->Closure_2;
            let fuel_b = choose|fuel: nat| #[trigger]
                has_value(call_bindings(function, operand), body, fuel) && computes(
                    ty,
                    value_of(call_bindings(function, operand), body, fuel)->Some_0,
                    fired,
                );
            let result = value_of(call_bindings(function, operand), body, fuel_b)->Some_0;
            let total = fuel_f + fuel_a + fuel_b + 1;
            lemma_value_of_more_fuel(env, *f, fuel_f, total);
            lemma_value_of_more_fuel(env, *a, fuel_a, total);
            lemma_value_of_more_fuel(
                call_bindings(function, operand),
                body,
                fuel_b,
                (total - 1) as nat,
            );
            assert(value_of(env, e, total) == Some(result));
            let code_f = nf.combinator().lift();
            let code_a = na.combinator().lift();
            lemma_lift_is_normal(nf.combinator());
            lemma_lift_is_normal(na.combinator());
            reveal_with_fuel(SpecStaticCombinator::lift, 3);
            reveal_with_fuel(SpecCombinator::step, 3);
            reveal_with_fuel(SpecCombinator::iterate, 3);
            let both = SpecCombinator::Pair(Box::new(code_f), Box::new(code_a));
            let t1 = SpecCombinator::Apply(
                Box::new(SpecCombinator::App),
                Box::new(SpecCombinator::Apply(Box::new(both), Box::new(rho.step()))),
            );
            assert(n.combinator().lift() == SpecCombinator::Com(
                Box::new(SpecCombinator::App),
                Box::new(both),
            ));
            assert(t.step() == t1);
            assert(rho2 == rho.step().step());
            assert(t1.step() == fired);
            lemma_computes_earlier(ty, result, t1);
            lemma_computes_earlier(ty, result, t);
            assert(has_value(env, e, total));
        },
        SpecExpr::Lam(x, tx, b) => {
            let more = binders.push((x, tx));
            assert(scope.push((x, tx)) =~= builtin_scope() + more);
            assert(names.push(x) =~= binder_names(more));
            lemma_closed_has_nameless_form(binder_names(more), *b);
            let nb = nameless_of(binder_names(more), *b)->Ok_0;
            let tb = type_of(builtin_scope() + more, *b)->Ok_0;
            let body_code = nb.combinator().lift();
            lemma_lift_is_normal(nb.combinator());
            let v = Value::Closure(env, x, b);
            assert(value_of(env, e, 0) == Some(v));
            reveal_with_fuel(SpecStaticCombinator::lift, 2);
            assert(t == SpecCombinator::Apply(
                Box::new(SpecCombinator::Lam(Box::new(body_code))),
                Box::new(rho),
            ));
            assert(is_closure(t.iterate(0)));
            lemma_env_names(binders, env, rho);
            assert forall|k: nat, operand: Value, s: SpecCombinator| #[trigger]
                entering(t, k, operand, s) implies applies(ty, v, t, k, operand, s) by {
                if computes(tx, operand, s) {
                    let frame = SpecCombinator::DPair(Box::new(rho.iterate(k)), Box::new(s));
                    lemma_closure_iterate(body_code, rho, k);
                    lemma_env_computes_later(binders, env, rho, k);
                    lemma_env_computes_pair(binders, env, rho.iterate(k), x, tx, operand, s);
                    lemma_expression_computes(more, env.push((x, operand)), frame, *b);
                    let fuel = choose|fuel: nat| #[trigger]
                        has_value(env.push((x, operand)), *b, fuel) && computes(
                            tb,
                            value_of(env.push((x, operand)), *b, fuel)->Some_0,
                            code_on(nb, frame),
                        );
                    assert(call_bindings(v, operand) == env.push((x, operand)));
                    assert(entered(t.iterate(k), s) == code_on(nb, frame));
                    assert(has_value(call_bindings(v, operand), *v->Closure_2, fuel));
                }
            }
            assert(has_value(env, e, 0));
        },
        SpecExpr::Lit(number) => {
            reveal_with_fuel(SpecStaticCombinator::lift, 2);
            reveal_with_fuel(SpecCombinator::step, 3);
            reveal_with_fuel(SpecCombinator::iterate, 2);
            assert(t.iterate(1) == SpecCombinator::Num(number));
            assert(has_value(env, e, 0));
        },
        SpecExpr::Var(x) => {
            let i = binder_index(names, x)->Some_0;
            lemma_env_names(binders, env, rho);
            lemma_bound_name(binders, env, x);
            lemma_projection_computes(binders, env, rho, i);
            assert(has_value(env, e, 0));
        },
    }
}

/// The term that runs a program on the environment `rho`: the program's
/// nameless form, compiled, lifted and applied to `rho`.
pub open spec fn program_term(e: SpecExpr, rho: SpecCombinator) -> SpecCombinator {
    code_on(nameless_of(seq![], e)->Ok_0, rho)
}

/// Compilation and evaluation agree. A program of type `int` whose names
/// are all bound by its own abstractions has a value under call-by-value
/// evaluation. Its compiled code, lifted and applied to whatever term stands
/// for the empty environment, has a normal form, and that is the number
/// that is the program's value.
pub proof fn lemma_compiled_program_computes_its_value(e: SpecExpr, rho: SpecCombinator)
    requires
        type_of(builtin_scope(), e) matches Ok(ty) && ty is Int,
        closed_in(seq![], e),
    ensures
        nameless_of(seq![], e) is Ok,
        exists|fuel: nat| #[trigger] has_value(seq![], e, fuel),
        program_term(e, rho).normalizes(),
        forall|fuel: nat| #[trigger]
            has_value(seq![], e, fuel) ==> (value_of(seq![], e, fuel) matches Some(
                Value::Num(n),
            ) && program_term(e, rho).normal_form() == SpecCombinator::Num(n)),
{
    let binders = Seq::<(Seq<char>, Type)>::empty();
    let env = Seq::<(Seq<char>, Value)>::empty();
    assert(builtin_scope() + binders =~= builtin_scope());
    assert(binder_names(binders) =~= seq![]);
    lemma_expression_computes(binders, env, rho, e);
    let t = program_term(e, rho);
    let enough = choose|fuel: nat| #[trigger]
        has_value(env, e, fuel) && computes(Type::Int, value_of(env, e, fuel)->Some_0, t);
    let number = value_of(env, e, enough)->Some_0->Num_0;
    let k = choose|k: nat| t.iterate(k) == SpecCombinator::Num(number);
    lemma_normal_form_unique(t, k);
    assert forall|fuel: nat| #[trigger] has_value(seq![], e, fuel) implies (value_of(
        seq![],
        e,
        fuel,
    ) matches Some(Value::Num(n)) && t.normal_form() == SpecCombinator::Num(n)) by {
        if fuel <= enough {
            lemma_value_of_more_fuel(env, e, fuel, enough);
        } else {
            lemma_value_of_more_fuel(env, e, enough, fuel);
        }
    }
}

} // verus!

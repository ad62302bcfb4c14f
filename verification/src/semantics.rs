//! The meaning of an expression: its value under call-by-value evaluation.

use vstd::prelude::*;

use crate::ast::SpecExpr;

verus! {

/// A value: a number, or a function with the bindings it was made under.
pub enum Value {
    Num(u32),
    Closure(Seq<(Seq<char>, Value)>, Seq<char>, Box<SpecExpr>),
}

/// The value of the most recent binding of `name`, if it has one.
pub open spec fn lookup_value(env: Seq<(Seq<char>, Value)>, name: Seq<char>) -> Option<Value>
    decreases env.len(),
{
    if env.len() == 0 {
        None
    } else if env.last().0 == name {
        Some(env.last().1)
    } else {
        lookup_value(env.drop_last(), name)
    }
}

/// The value of `e` under the bindings `env`, by call-by-value evaluation:
/// of an application the operator is evaluated, then the operand, then the
/// body of the operator's function with its parameter bound to the operand's
/// value. `fuel` bounds the depth of calls; where it runs out, or where
/// a name has no binding or the operator is no function, there is no value.
pub open spec fn value_of(env: Seq<(Seq<char>, Value)>, e: SpecExpr, fuel: nat) -> Option<Value>
    decreases fuel, e,
{
    match e {
        SpecExpr::App(f, a) => match value_of(env, *f, fuel) {
            Some(Value::Closure(bindings, x, body)) => match value_of(env, *a, fuel) {
                Some(operand) => if fuel == 0 {
                    None
                } else {
                    value_of(bindings.push((x, operand)), *body, (fuel - 1) as nat)
                },
                None => None,
            },
            _ => None,
        },
        SpecExpr::Lam(x, _, b) => Some(Value::Closure(env, x, b)),
        SpecExpr::Lit(n) => Some(Value::Num(n)),
        SpecExpr::Var(x) => lookup_value(env, x),
    }
}

/// More fuel does not change a value.
pub proof fn lemma_value_of_more_fuel(
    env: Seq<(Seq<char>, Value)>,
    e: SpecExpr,
    fuel: nat,
    more: nat,
)
    requires
        value_of(env, e, fuel) is Some,
        fuel <= more,
    ensures
        value_of(env, e, more) == value_of(env, e, fuel),
    decreases fuel, e,
{
    match e {
        SpecExpr::App(f, a) => {
            lemma_value_of_more_fuel(env, *f, fuel, more);
            lemma_value_of_more_fuel(env, *a, fuel, more);
            match value_of(env, *f, fuel) {
                Some(Value::Closure(bindings, x, body)) => {
                    let operand = value_of(env, *a, fuel)->Some_0;
                    lemma_value_of_more_fuel(
                        bindings.push((x, operand)),
                        *body,
                        (fuel - 1) as nat,
                        (more - 1) as nat,
                    );
                },
                _ => {},
            }
        },
        _ => {},
    }
}

} // verus!

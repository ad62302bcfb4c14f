//! A compiler from the simply-typed lambda calculus to a stack machine,
//! by way of categorical combinators.

use vstd::prelude::*;

pub mod agreement;
pub mod ast;
pub mod cam;
pub mod nameless;
pub mod output;
pub mod parse;
pub mod round_trip;
pub mod semantics;
pub mod text;
pub mod tyck;

pub use crate::ast::{Expr, Type};
pub use crate::cam::eval::Combinator;
pub use crate::cam::eval::Combinator as DynamicCombinator;
pub use crate::cam::StaticCombinator;
pub use crate::nameless::{remove_names, NameError, NamelessExpr};
pub use crate::tyck::TypeError;

use crate::agreement::{lemma_compiled_program_computes_its_value, program_term};
use crate::ast::SpecExpr;
use crate::cam::definitions_model;
use crate::cam::eval::SpecCombinator;
use crate::nameless::{binder_index, closed_in, is_builtin, is_closed, names_model, nameless_of};
use crate::semantics::{value_of, Value};
use crate::tyck::{binder_names, builtin_scope, lookup, type_of};

verus! {

/// A name that has a type is bound: by a binder, or else as a builtin.
pub proof fn lemma_typed_name_is_bound(binders: Seq<(Seq<char>, Type)>, name: Seq<char>)
    requires
        lookup(builtin_scope() + binders, name) is Some,
    ensures
        binder_index(binder_names(binders), name) is Some || is_builtin(name),
    decreases binders.len(),
{
    let scope = builtin_scope() + binders;
    if binders.len() == 0 {
        assert(scope =~= builtin_scope());
        reveal_with_fuel(lookup, 7);
    } else {
        assert(scope.last() == binders.last());
        assert(binder_names(binders).last() == binders.last().0);
        if binders.last().0 != name {
            assert(scope.drop_last() =~= builtin_scope() + binders.drop_last());
            assert(binder_names(binders).drop_last() =~= binder_names(binders.drop_last()));
            lemma_typed_name_is_bound(binders.drop_last(), name);
        }
    }
}

/// An expression that typechecks has a nameless form: every name in it is
/// bound. So once the type checker has accepted a program, compiling it
/// cannot fail.
pub proof fn lemma_well_typed_has_nameless_form(binders: Seq<(Seq<char>, Type)>, e: SpecExpr)
    requires
        type_of(builtin_scope() + binders, e) is Ok,
    ensures
        nameless_of(binder_names(binders), e) is Ok,
    decreases e,
{
    let scope = builtin_scope() + binders;
    match e {
        SpecExpr::App(f, a) => {
            lemma_well_typed_has_nameless_form(binders, *f);
            lemma_well_typed_has_nameless_form(binders, *a);
        },
        SpecExpr::Lam(x, t, b) => {
            assert(scope.push((x, t)) =~= builtin_scope() + binders.push((x, t)));
            assert(binder_names(binders).push(x) =~= binder_names(binders.push((x, t))));
            lemma_well_typed_has_nameless_form(binders.push((x, t)), *b);
        },
        SpecExpr::Lit(_) => {},
        SpecExpr::Var(x) => {
            lemma_typed_name_is_bound(binders, x);
        },
    }
}

impl Expr {
    /// Compiles the expression to a combinator. The expression is taken as
    /// it stands, under no binder: a name in it is that of one of its own
    /// binders or of a builtin.
    pub fn to_combinators(&self) -> (r: Result<StaticCombinator, NameError>)
        ensures
            match r {
                Ok(c) => nameless_of(seq![], self@) matches Ok(n) && c@ == n.combinator(),
                Err(e) => nameless_of(seq![], self@) matches Err(err) && err == e@,
            },
    {
        let mut scope: Vec<&str> = Vec::new();
        assert(names_model(scope@) =~= seq![]);
        match remove_names(&mut scope, self) {
            Ok(nameless) => Ok(nameless.to_combinator()),
            Err(e) => Err(e),
        }
    }

    /// Compiles the expression to a sequence of definitions of object code.
    /// The names generated are prefixed with the given string.
    pub fn compile(&self, prefix: &str) -> (r: Result<Vec<Vec<String>>, NameError>)
        ensures
            match r {
                Ok(definitions) => nameless_of(seq![], self@) matches Ok(n) && definitions_model(
                    definitions@,
                ) == n.combinator().program(prefix@),
                Err(e) => nameless_of(seq![], self@) matches Err(err) && err == e@,
            },
    {
        match self.to_combinators() {
            Ok(combinators) => Ok(combinators.to_forth(prefix)),
            Err(e) => Err(e),
        }
    }

    /// The number that a program computes: the normal form of its compiled
    /// code, run on the empty environment. Only a program of type `int`
    /// whose names are all bound by its own abstractions is run; its normal
    /// form is the value that the program has under call-by-value
    /// evaluation.
    pub fn evaluate(&self) -> (r: Option<u32>)
        ensures
            r is Some <==> (type_of(builtin_scope(), self@) matches Ok(ty) && ty is Int)
                && closed_in(seq![], self@),
            r matches Some(n) ==> exists|fuel: nat| #[trigger]
                value_of(seq![], self@, fuel) == Some(Value::Num(n)),
    {
        match self.tyck() {
            Ok(ty) => match &*ty {
                Type::Int => {},
                Type::Arr(_, _) => {
                    return None;
                },
            },
            Err(_) => {
                return None;
            },
        }
        let mut scope: Vec<&str> = Vec::new();
        assert(names_model(scope@) =~= seq![]);
        if !is_closed(&mut scope, self) {
            return None;
        }
        let ghost empty = SpecCombinator::Num(0);
        proof {
            lemma_compiled_program_computes_its_value(self@, empty);
        }
        match self.to_combinators() {
            Ok(code) => {
                let term = Combinator::Apply(
                    Box::new(Combinator::from(code)),
                    Box::new(Combinator::Num(0)),
                );
                assert(term@ == program_term(self@, empty)) by {
                    reveal_with_fuel(Combinator::model, 2);
                }
                match term.eval() {
                    Combinator::Num(n) => {
                        let ghost fuel = choose|fuel: nat| #[trigger]
                            crate::agreement::has_value(seq![], self@, fuel);
                        assert(value_of(seq![], self@, fuel) == Some(Value::Num(n)));
                        Some(n)
                    },
                    _ => None,
                }
            },
            Err(_) => None,
        }
    }
}

} // verus!

//! The type checker of the named surface syntax.

use std::sync::Arc;
use vstd::prelude::*;
use vstd::std_specs::cmp::PartialEqSpecImpl;

use crate::ast::{Expr, SpecExpr, Type};
use crate::text::same_text;

verus! {

/// Why an expression has no type.
#[derive(Debug)]
pub enum TypeError {
    /// A name that is neither bound by an enclosing abstraction nor a builtin.
    UnboundName(String),
    /// The operator of an application has a type that is not an arrow.
    NotAFunction,
    /// The operand of an application has another type than the operator's
    /// domain.
    ArgTypeMismatch { expected: Arc<Type>, got: Arc<Type> },
}

/// The mathematical value of a [`TypeError`].
pub enum SpecTypeError {
    UnboundName(Seq<char>),
    NotAFunction,
    ArgTypeMismatch { expected: Type, got: Type },
}

impl View for TypeError {
    type V = SpecTypeError;

    open spec fn view(&self) -> SpecTypeError {
        match self {
            TypeError::UnboundName(x) => SpecTypeError::UnboundName(x@),
            TypeError::NotAFunction => SpecTypeError::NotAFunction,
            TypeError::ArgTypeMismatch { expected, got } => SpecTypeError::ArgTypeMismatch {
                expected: **expected,
                got: **got,
            },
        }
    }
}

impl SpecTypeError {
    /// The text of an error.
    pub open spec fn display(self) -> Seq<char> {
        match self {
            SpecTypeError::UnboundName(x) => "Not found: "@ + x,
            SpecTypeError::NotAFunction => "Not a function"@,
            SpecTypeError::ArgTypeMismatch { expected, got } => "Expected "@ + expected.display()
                + ", but got "@ + got.display(),
        }
    }
}

impl TypeError {
    /// Renders the error as text.
    pub fn to_string(&self) -> (s: String)
        ensures
            s@ == self@.display(),
    {
        match self {
            TypeError::UnboundName(x) => {
                let mut s = String::from_str("Not found: ");
                s.append(x.as_str());
                s
            },
            TypeError::NotAFunction => String::from_str("Not a function"),
            TypeError::ArgTypeMismatch { expected, got } => {
                let mut s = String::from_str("Expected ");
                let e = (&**expected).to_string();
                s.append(e.as_str());
                s.append(", but got ");
                let g = (&**got).to_string();
                s.append(g.as_str());
                s
            },
        }
    }
}

impl PartialEq for TypeError {
    fn eq(&self, other: &TypeError) -> (r: bool) {
        match self {
            TypeError::UnboundName(x) => match other {
                TypeError::UnboundName(y) => *x == *y,
                _ => false,
            },
            TypeError::NotAFunction => match other {
                TypeError::NotAFunction => true,
                _ => false,
            },
            TypeError::ArgTypeMismatch { expected: e1, got: g1 } => match other {
                TypeError::ArgTypeMismatch { expected: e2, got: g2 } => (&**e1).eq(&**e2) && (
                &**g1).eq(&**g2),
                _ => false,
            },
        }
    }
}

impl PartialEqSpecImpl for TypeError {
    open spec fn obeys_eq_spec() -> bool {
        true
    }

    open spec fn eq_spec(&self, other: &TypeError) -> bool {
        self@ == other@
    }
}

/// The type `int -> int`.
pub open spec fn int_to_int() -> Type {
    Type::Arr(Arc::new(Type::Int), Arc::new(Type::Int))
}

/// The type `int -> int -> int`.
pub open spec fn int_to_int_to_int() -> Type {
    Type::Arr(Arc::new(Type::Int), Arc::new(int_to_int()))
}

/// The bindings that every program starts with: the arithmetic primitives
/// and `print`.
pub open spec fn builtin_scope() -> Seq<(Seq<char>, Type)> {
    seq![
        ("+"@, int_to_int_to_int()),
        ("-"@, int_to_int_to_int()),
        ("*"@, int_to_int_to_int()),
        ("/"@, int_to_int_to_int()),
        ("mod"@, int_to_int_to_int()),
        ("print"@, int_to_int()),
    ]
}

/// The names of the binders of a scope.
pub open spec fn binder_names(binders: Seq<(Seq<char>, Type)>) -> Seq<Seq<char>> {
    binders.map_values(|b: (Seq<char>, Type)| b.0)
}

/// The type of the most recent binding of `name`, if it has one.
pub open spec fn lookup(scope: Seq<(Seq<char>, Type)>, name: Seq<char>) -> Option<Type>
    decreases scope.len(),
{
    if scope.len() == 0 {
        None
    } else if scope.last().0 == name {
        Some(scope.last().1)
    } else {
        lookup(scope.drop_last(), name)
    }
}

/// The typing rules: the type of `e` under `scope`, or the first error met
/// when the operator of an application is checked before its operand.
pub open spec fn type_of(scope: Seq<(Seq<char>, Type)>, e: SpecExpr) -> Result<Type, SpecTypeError>
    decreases e,
{
    match e {
        SpecExpr::App(f, a) => match type_of(scope, *f) {
            Err(err) => Err(err),
            Ok(Type::Int) => Err(SpecTypeError::NotAFunction),
            Ok(Type::Arr(dom, cod)) => match type_of(scope, *a) {
                Err(err) => Err(err),
                Ok(at) => if *dom == at {
                    Ok(*cod)
                } else {
                    Err(SpecTypeError::ArgTypeMismatch { expected: *dom, got: at })
                },
            },
        },
        SpecExpr::Lam(x, t, b) => match type_of(scope.push((x, t)), *b) {
            Err(err) => Err(err),
            Ok(bt) => Ok(Type::Arr(Arc::new(t), Arc::new(bt))),
        },
        SpecExpr::Lit(_) => Ok(Type::Int),
        SpecExpr::Var(x) => match lookup(scope, x) {
            Some(t) => Ok(t),
            None => Err(SpecTypeError::UnboundName(x)),
        },
    }
}

/// What a scope of borrowed names and types stands for.
pub open spec fn scope_model(scope: Seq<(&str, &Arc<Type>)>) -> Seq<(Seq<char>, Type)> {
    scope.map_values(|b: (&str, &Arc<Type>)| (b.0@, **b.1))
}

/// What the outcome of a check stands for.
pub open spec fn outcome_model(r: Result<Arc<Type>, TypeError>) -> Result<Type, SpecTypeError> {
    match r {
        Ok(t) => Ok(*t),
        Err(e) => Err(e@),
    }
}

/// `Arc::clone` of std: the new pointer shares the allocation of the old
/// one, so both point to the same value.
#[verifier::external_body]
fn share(t: &Arc<Type>) -> (r: Arc<Type>)
    ensures
        *r == **t,
{
    Arc::clone(t)
}

/// Looks for the most recent binding of `name`, from the end of the scope
/// back.
fn find_binding<'e>(scope: &Vec<(&'e str, &'e Arc<Type>)>, name: &str) -> (r: Option<
    &'e Arc<Type>,
>)
    ensures
        match r {
            Some(t) => lookup(scope_model(scope@), name@) == Some(**t),
            None => lookup(scope_model(scope@), name@) is None,
        },
{
    let ghost whole = scope_model(scope@);
    let mut i: usize = scope.len();
    assert(whole.take(i as int) =~= whole);
    while i > 0
        invariant
            i <= scope@.len(),
            whole == scope_model(scope@),
            lookup(whole, name@) == lookup(whole.take(i as int), name@),
        decreases i,
    {
        i -= 1;
        let entry = &scope[i];
        assert(whole.take(i + 1).last() == whole[i as int]);
        assert(whole.take(i + 1).drop_last() =~= whole.take(i as int));
        if same_text(entry.0, name) {
            return Some(entry.1);
        }
    }
    assert(whole.take(0).len() == 0);
    None
}

/// Typechecks `expr` under `scope`, which holds the bindings around it, the
/// innermost last. The scope is the same after the call as before it.
fn tyck<'e>(scope: &mut Vec<(&'e str, &'e Arc<Type>)>, expr: &'e Expr) -> (r: Result<
    Arc<Type>,
    TypeError,
>)
    ensures
        final(scope)@ == old(scope)@,
        outcome_model(r) == type_of(scope_model(old(scope)@), expr@),
    decreases expr,
{
    match expr {
        Expr::App(f, a) => {
            let ft = tyck(scope, &**f)?;
            match &*ft {
                Type::Int => Err(TypeError::NotAFunction),
                Type::Arr(dom, cod) => {
                    let at = tyck(scope, &**a)?;
                    if (&**dom).eq(&*at) {
                        Ok(share(cod))
                    } else {
                        Err(TypeError::ArgTypeMismatch { expected: share(dom), got: at })
                    }
                },
            }
        },
        Expr::Lam(x, t, b) => {
            scope.push((x.as_str(), t));
            assert(scope_model(scope@) =~= scope_model(old(scope)@).push((x@, **t)));
            let checked = tyck(scope, &**b);
            scope.pop();
            assert(scope@ =~= old(scope)@);
            match checked {
                Ok(bt) => Ok(Arc::new(Type::Arr(share(t), bt))),
                Err(e) => Err(e),
            }
        },
        Expr::Lit(_) => Ok(Arc::new(Type::Int)),
        Expr::Var(x) => match find_binding(scope, x.as_str()) {
            Some(t) => Ok(share(t)),
            None => Err(TypeError::UnboundName(x.clone())),
        },
    }
}

impl Expr {
    /// Typechecks the expression under the builtin bindings.
    pub fn tyck(&self) -> (r: Result<Arc<Type>, TypeError>)
        ensures
            outcome_model(r) == type_of(builtin_scope(), self@),
    {
        let unary = Arc::new(Type::Arr(Arc::new(Type::Int), Arc::new(Type::Int)));
        let binary = Arc::new(Type::Arr(Arc::new(Type::Int), share(&unary)));
        let mut scope: Vec<(&str, &Arc<Type>)> = Vec::new();
        scope.push(("+", &binary));
        scope.push(("-", &binary));
        scope.push(("*", &binary));
        scope.push(("/", &binary));
        scope.push(("mod", &binary));
        scope.push(("print", &unary));
        assert(scope_model(scope@) =~= builtin_scope());
        tyck(&mut scope, self)
    }
}

} // verus!

//! The named surface syntax and its simple types.

use std::sync::Arc;
use vstd::prelude::*;
use vstd::std_specs::cmp::PartialEqSpecImpl;

use crate::text::{decimal, decimal_string};

verus! {

/// A simple type. Two types are compatible exactly when they are structurally
/// equal; there is no subtyping.
#[derive(Debug)]
pub enum Type {
    /// The type of functions from the first type to the second.
    Arr(Arc<Type>, Arc<Type>),
    /// The type of integer literals.
    Int,
}

impl Type {
    /// The type of the operands of a function type.
    pub open spec fn domain(self) -> Type {
        match self {
            Type::Arr(a, _) => *a,
            Type::Int => self,
        }
    }

    /// The type of the results of a function type.
    pub open spec fn codomain(self) -> Type {
        match self {
            Type::Arr(_, b) => *b,
            Type::Int => self,
        }
    }

    /// The text of a type: `int`, or `(domain) -> codomain`.
    pub open spec fn display(self) -> Seq<char>
        decreases self,
    {
        match self {
            Type::Arr(a, b) => "("@ + a.display() + ") -> "@ + b.display(),
            Type::Int => "int"@,
        }
    }

    /// Renders the type as text.
    pub fn to_string(&self) -> (s: String)
        ensures
            s@ == self.display(),
        decreases *self,
    {
        match self {
            Type::Arr(a, b) => {
                let mut s = String::from_str("(");
                let l = (&**a).to_string();
                s.append(l.as_str());
                s.append(") -> ");
                let r = (&**b).to_string();
                s.append(r.as_str());
                s
            },
            Type::Int => String::from_str("int"),
        }
    }
}

impl PartialEq for Type {
    fn eq(&self, other: &Type) -> (r: bool)
        decreases *self,
    {
        match self {
            Type::Arr(a1, a2) => match other {
                Type::Arr(b1, b2) => (&**a1).eq(&**b1) && (&**a2).eq(&**b2),
                Type::Int => false,
            },
            Type::Int => match other {
                Type::Arr(_, _) => false,
                Type::Int => true,
            },
        }
    }
}

impl PartialEqSpecImpl for Type {
    open spec fn obeys_eq_spec() -> bool {
        true
    }

    open spec fn eq_spec(&self, other: &Type) -> bool {
        *self == *other
    }
}

impl Eq for Type {

}

/// An expression of the named surface syntax.
#[derive(Debug)]
pub enum Expr {
    /// Function application.
    App(Box<Expr>, Box<Expr>),
    /// Function abstraction: the parameter's name, its type, and the body.
    Lam(String, Arc<Type>, Box<Expr>),
    /// An integer literal.
    Lit(u32),
    /// A reference to a binder or to a builtin, by name.
    Var(String),
}

/// The mathematical value of an [`Expr`]: the same tree, with each name as a
/// sequence of characters.
pub enum SpecExpr {
    App(Box<SpecExpr>, Box<SpecExpr>),
    Lam(Seq<char>, Type, Box<SpecExpr>),
    Lit(u32),
    Var(Seq<char>),
}

impl SpecExpr {
    /// The text of an expression, fully parenthesised.
    pub open spec fn display(self) -> Seq<char>
        decreases self,
    {
        match self {
            SpecExpr::App(f, a) => "("@ + f.display() + " "@ + a.display() + ")"@,
            SpecExpr::Lam(x, t, b) => "(λ"@ + x + ":"@ + t.display() + ". "@ + b.display() + ")"@,
            SpecExpr::Lit(n) => decimal(n as nat),
            SpecExpr::Var(x) => x,
        }
    }
}

impl Expr {
    /// The mathematical value of the expression.
    pub open spec fn model(self) -> SpecExpr
        decreases self,
    {
        match self {
            Expr::App(f, a) => SpecExpr::App(Box::new(f.model()), Box::new(a.model())),
            Expr::Lam(x, t, b) => SpecExpr::Lam(x@, *t, Box::new(b.model())),
            Expr::Lit(n) => SpecExpr::Lit(n),
            Expr::Var(x) => SpecExpr::Var(x@),
        }
    }
}

impl View for Expr {
    type V = SpecExpr;

    open spec fn view(&self) -> SpecExpr {
        self.model()
    }
}

impl Expr {
    /// Renders the expression as text.
    pub fn to_string(&self) -> (s: String)
        ensures
            s@ == self@.display(),
        decreases *self,
    {
        match self {
            Expr::App(f, a) => {
                let mut s = String::from_str("(");
                let l = (&**f).to_string();
                s.append(l.as_str());
                s.append(" ");
                let r = (&**a).to_string();
                s.append(r.as_str());
                s.append(")");
                s
            },
            Expr::Lam(x, t, b) => {
                let mut s = String::from_str("(λ");
                s.append(x.as_str());
                s.append(":");
                let ty = (&**t).to_string();
                s.append(ty.as_str());
                s.append(". ");
                let body = (&**b).to_string();
                s.append(body.as_str());
                s.append(")");
                s
            },
            Expr::Lit(n) => decimal_string(*n as u64),
            Expr::Var(x) => x.clone(),
        }
    }
}

impl PartialEq for Expr {
    fn eq(&self, other: &Expr) -> (r: bool)
        decreases *self,
    {
        match self {
            Expr::App(f1, a1) => match other {
                Expr::App(f2, a2) => (&**f1).eq(&**f2) && (&**a1).eq(&**a2),
                _ => false,
            },
            Expr::Lam(x1, t1, b1) => match other {
                Expr::Lam(x2, t2, b2) => *x1 == *x2 && (&**t1).eq(&**t2) && (&**b1).eq(&**b2),
                _ => false,
            },
            Expr::Lit(n1) => match other {
                Expr::Lit(n2) => *n1 == *n2,
                _ => false,
            },
            Expr::Var(x1) => match other {
                Expr::Var(x2) => *x1 == *x2,
                _ => false,
            },
        }
    }
}

impl PartialEqSpecImpl for Expr {
    open spec fn obeys_eq_spec() -> bool {
        true
    }

    open spec fn eq_spec(&self, other: &Expr) -> bool {
        self@ == other@
    }
}

impl Eq for Expr {

}

} // verus!

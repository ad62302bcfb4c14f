//! Nameless expressions: variables as de Bruijn indices.

use vstd::prelude::*;
use vstd::std_specs::cmp::PartialEqSpecImpl;

use crate::ast::{Expr, SpecExpr};
use crate::text::{decimal, decimal_string, same_text};

verus! {

/// A nameless expression.
#[derive(Debug)]
pub enum NamelessExpr {
    /// Function application.
    App(Box<NamelessExpr>, Box<NamelessExpr>),
    /// Function abstraction.
    Lam(Box<NamelessExpr>),
    /// A literal value.
    Lit(u32),
    /// A builtin, by its name.
    Nam(String),
    /// A variable: the number of binders between the reference and its own
    /// binder, so that 0 is the nearest enclosing one.
    Var(usize),
}

/// The mathematical value of a [`NamelessExpr`].
pub enum SpecNamelessExpr {
    App(Box<SpecNamelessExpr>, Box<SpecNamelessExpr>),
    Lam(Box<SpecNamelessExpr>),
    Lit(u32),
    Nam(Seq<char>),
    Var(nat),
}

impl SpecNamelessExpr {
    /// The text of a nameless expression.
    pub open spec fn display(self) -> Seq<char>
        decreases self,
    {
        match self {
            SpecNamelessExpr::App(l, r) => "("@ + l.display() + " "@ + r.display() + ")"@,
            SpecNamelessExpr::Lam(b) => "λ"@ + b.display(),
            SpecNamelessExpr::Lit(n) => decimal(n as nat),
            SpecNamelessExpr::Nam(x) => x,
            SpecNamelessExpr::Var(i) => "$"@ + decimal(i),
        }
    }

    /// Whether every index refers to a binder: one inside the expression, or
    /// one of the `depth` binders around it.
    pub open spec fn indices_below(self, depth: nat) -> bool
        decreases self,
    {
        match self {
            SpecNamelessExpr::App(l, r) => l.indices_below(depth) && r.indices_below(depth),
            SpecNamelessExpr::Lam(b) => b.indices_below(depth + 1),
            SpecNamelessExpr::Lit(_) => true,
            SpecNamelessExpr::Nam(_) => true,
            SpecNamelessExpr::Var(i) => i < depth,
        }
    }
}

impl NamelessExpr {
    /// The mathematical value of the expression.
    pub open spec fn model(self) -> SpecNamelessExpr
        decreases self,
    {
        match self {
            NamelessExpr::App(l, r) => SpecNamelessExpr::App(
                Box::new(l.model()),
                Box::new(r.model()),
            ),
            NamelessExpr::Lam(b) => SpecNamelessExpr::Lam(Box::new(b.model())),
            NamelessExpr::Lit(n) => SpecNamelessExpr::Lit(n),
            NamelessExpr::Nam(x) => SpecNamelessExpr::Nam(x@),
            NamelessExpr::Var(i) => SpecNamelessExpr::Var(i as nat),
        }
    }

    /// Renders the expression as text.
    pub fn to_string(&self) -> (s: String)
        ensures
            s@ == self@.display(),
        decreases *self,
    {
        match self {
            NamelessExpr::App(l, r) => {
                let mut s = String::from_str("(");
                let left = (&**l).to_string();
                s.append(left.as_str());
                s.append(" ");
                let right = (&**r).to_string();
                s.append(right.as_str());
                s.append(")");
                s
            },
            NamelessExpr::Lam(b) => {
                let mut s = String::from_str("λ");
                let body = (&**b).to_string();
                s.append(body.as_str());
                s
            },
            NamelessExpr::Lit(n) => decimal_string(*n as u64),
            NamelessExpr::Nam(x) => x.clone(),
            NamelessExpr::Var(i) => {
                let mut s = String::from_str("$");
                let index = decimal_string(*i as u64);
                s.append(index.as_str());
                s
            },
        }
    }
}

impl View for NamelessExpr {
    type V = SpecNamelessExpr;

    open spec fn view(&self) -> SpecNamelessExpr {
        self.model()
    }
}

impl PartialEq for NamelessExpr {
    fn eq(&self, other: &NamelessExpr) -> (r: bool)
        decreases *self,
    {
        match self {
            NamelessExpr::App(l1, r1) => match other {
                NamelessExpr::App(l2, r2) => (&**l1).eq(&**l2) && (&**r1).eq(&**r2),
                _ => false,
            },
            NamelessExpr::Lam(b1) => match other {
                NamelessExpr::Lam(b2) => (&**b1).eq(&**b2),
                _ => false,
            },
            NamelessExpr::Lit(n1) => match other {
                NamelessExpr::Lit(n2) => *n1 == *n2,
                _ => false,
            },
            NamelessExpr::Nam(x1) => match other {
                NamelessExpr::Nam(x2) => *x1 == *x2,
                _ => false,
            },
            NamelessExpr::Var(i1) => match other {
                NamelessExpr::Var(i2) => *i1 == *i2,
                _ => false,
            },
        }
    }
}

impl PartialEqSpecImpl for NamelessExpr {
    open spec fn obeys_eq_spec() -> bool {
        true
    }

    open spec fn eq_spec(&self, other: &NamelessExpr) -> bool {
        self@ == other@
    }
}

/// Why an expression has no nameless form.
#[derive(Debug)]
pub enum NameError {
    /// A name that is neither bound by an enclosing abstraction nor a builtin.
    UnboundName(String),
}

/// The mathematical value of a [`NameError`].
pub enum SpecNameError {
    UnboundName(Seq<char>),
}

impl View for NameError {
    type V = SpecNameError;

    open spec fn view(&self) -> SpecNameError {
        match self {
            NameError::UnboundName(x) => SpecNameError::UnboundName(x@),
        }
    }
}

impl SpecNameError {
    /// The text of an error.
    pub open spec fn display(self) -> Seq<char> {
        match self {
            SpecNameError::UnboundName(x) => "Not found: "@ + x,
        }
    }
}

impl NameError {
    /// Renders the error as text.
    pub fn to_string(&self) -> (s: String)
        ensures
            s@ == self@.display(),
    {
        match self {
            NameError::UnboundName(x) => {
                let mut s = String::from_str("Not found: ");
                s.append(x.as_str());
                s
            },
        }
    }
}

impl PartialEq for NameError {
    fn eq(&self, other: &NameError) -> (r: bool) {
        match self {
            NameError::UnboundName(x) => match other {
                NameError::UnboundName(y) => *x == *y,
            },
        }
    }
}

impl PartialEqSpecImpl for NameError {
    open spec fn obeys_eq_spec() -> bool {
        true
    }

    open spec fn eq_spec(&self, other: &NameError) -> bool {
        self@ == other@
    }
}

/// Whether `name` is one of the builtin identifiers.
pub open spec fn is_builtin(name: Seq<char>) -> bool {
    ||| name == "+"@
    ||| name == "-"@
    ||| name == "*"@
    ||| name == "/"@
    ||| name == "mod"@
    ||| name == "print"@
}

/// The distance from the top of the binder stack to the most recent binder
/// called `name`, if there is one.
pub open spec fn binder_index(scope: Seq<Seq<char>>, name: Seq<char>) -> Option<nat>
    decreases scope.len(),
{
    if scope.len() == 0 {
        None
    } else if scope.last() == name {
        Some(0)
    } else {
        match binder_index(scope.drop_last(), name) {
            Some(i) => Some(i + 1),
            None => None,
        }
    }
}

/// The nameless form of `e` under the binder stack `scope`: a name refers to
/// its most recent binder, else to the builtin of that name, else it is
/// unbound. Of two unbound names the one in the operator is reported.
pub open spec fn nameless_of(scope: Seq<Seq<char>>, e: SpecExpr) -> Result<
    SpecNamelessExpr,
    SpecNameError,
>
    decreases e,
{
    match e {
        SpecExpr::App(l, r) => match nameless_of(scope, *l) {
            Err(err) => Err(err),
            Ok(nl) => match nameless_of(scope, *r) {
                Err(err) => Err(err),
                Ok(nr) => Ok(SpecNamelessExpr::App(Box::new(nl), Box::new(nr))),
            },
        },
        SpecExpr::Lam(x, _, b) => match nameless_of(scope.push(x), *b) {
            Err(err) => Err(err),
            Ok(nb) => Ok(SpecNamelessExpr::Lam(Box::new(nb))),
        },
        SpecExpr::Lit(n) => Ok(SpecNamelessExpr::Lit(n)),
        SpecExpr::Var(x) => match binder_index(scope, x) {
            Some(i) => Ok(SpecNamelessExpr::Var(i)),
            None => if is_builtin(x) {
                Ok(SpecNamelessExpr::Nam(x))
            } else {
                Err(SpecNameError::UnboundName(x))
            },
        },
    }
}

/// Whether every name in `e` is bound: by one of the binders `scope` around
/// it, or by an abstraction inside it.
pub open spec fn closed_in(scope: Seq<Seq<char>>, e: SpecExpr) -> bool
    decreases e,
{
    match e {
        SpecExpr::App(f, a) => closed_in(scope, *f) && closed_in(scope, *a),
        SpecExpr::Lam(x, _, b) => closed_in(scope.push(x), *b),
        SpecExpr::Lit(_) => true,
        SpecExpr::Var(x) => binder_index(scope, x) is Some,
    }
}

/// What a stack of borrowed names stands for.
pub open spec fn names_model(scope: Seq<&str>) -> Seq<Seq<char>> {
    scope.map_values(|x: &str| x@)
}

/// What the outcome of a conversion stands for.
pub open spec fn conversion_model(r: Result<NamelessExpr, NameError>) -> Result<
    SpecNamelessExpr,
    SpecNameError,
> {
    match r {
        Ok(e) => Ok(e@),
        Err(e) => Err(e@),
    }
}

/// An index that is found is below the height of the stack.
pub proof fn lemma_binder_index_in_scope(scope: Seq<Seq<char>>, name: Seq<char>)
    ensures
        binder_index(scope, name) matches Some(i) ==> i < scope.len(),
    decreases scope.len(),
{
    if scope.len() > 0 && scope.last() != name {
        lemma_binder_index_in_scope(scope.drop_last(), name);
    }
}

/// No index of a nameless form escapes its binders: each is below the
/// number of binders that enclose it, those of the stack included. The
/// nameless form of a closed expression, made from the empty stack, thus
/// holds only indices of its own binders.
pub proof fn lemma_nameless_indices_in_scope(scope: Seq<Seq<char>>, e: SpecExpr)
    ensures
        nameless_of(scope, e) matches Ok(n) ==> n.indices_below(scope.len()),
    decreases e,
{
    match e {
        SpecExpr::App(l, r) => {
            lemma_nameless_indices_in_scope(scope, *l);
            lemma_nameless_indices_in_scope(scope, *r);
        },
        SpecExpr::Lam(x, _, b) => {
            lemma_nameless_indices_in_scope(scope.push(x), *b);
        },
        SpecExpr::Lit(_) => {},
        SpecExpr::Var(x) => {
            lemma_binder_index_in_scope(scope, x);
        },
    }
}

/// An expression whose names are all bound has a nameless form.
pub proof fn lemma_closed_has_nameless_form(scope: Seq<Seq<char>>, e: SpecExpr)
    requires
        closed_in(scope, e),
    ensures
        nameless_of(scope, e) is Ok,
    decreases e,
{
    match e {
        SpecExpr::App(f, a) => {
            lemma_closed_has_nameless_form(scope, *f);
            lemma_closed_has_nameless_form(scope, *a);
        },
        SpecExpr::Lam(x, _, b) => {
            lemma_closed_has_nameless_form(scope.push(x), *b);
        },
        _ => {},
    }
}

/// Looks for the most recent binder called `name`, from the top of the
/// stack down.
fn find_binder(scope: &Vec<&str>, name: &str) -> (r: Option<usize>)
    ensures
        match r {
            Some(i) => binder_index(names_model(scope@), name@) == Some(i as nat),
            None => binder_index(names_model(scope@), name@) is None,
        },
{
    let ghost whole = names_model(scope@);
    let mut i: usize = scope.len();
    assert(whole.take(i as int) =~= whole);
    while i > 0
        invariant
            i <= scope@.len(),
            whole == names_model(scope@),
            binder_index(whole.take(i as int), name@) matches Some(k) ==> binder_index(
                whole,
                name@,
            ) == Some((k + scope@.len() - i) as nat),
            binder_index(whole.take(i as int), name@) is None ==> binder_index(whole, name@)
                is None,
        decreases i,
    {
        i -= 1;
        assert(whole.take(i + 1).last() == whole[i as int]);
        assert(whole.take(i + 1).drop_last() =~= whole.take(i as int));
        if same_text(scope[i], name) {
            return Some(scope.len() - i - 1);
        }
    }
    assert(whole.take(0).len() == 0);
    None
}

/// Whether `name` is one of the builtin identifiers.
fn names_builtin(name: &str) -> (r: bool)
    ensures
        r == is_builtin(name@),
{
    same_text(name, "+") || same_text(name, "-") || same_text(name, "*") || same_text(name, "/")
        || same_text(name, "mod") || same_text(name, "print")
}

/// Converts an expression to its nameless form. `scope` holds the names of
/// the binders around `expr`, the innermost last; it is the same after the
/// call as before it, also when the conversion fails.
pub fn remove_names<'e>(scope: &mut Vec<&'e str>, expr: &'e Expr) -> (r: Result<
    NamelessExpr,
    NameError,
>)
    ensures
        final(scope)@ == old(scope)@,
        conversion_model(r) == nameless_of(names_model(old(scope)@), expr@),
        r matches Ok(n) ==> n@.indices_below(old(scope)@.len() as nat),
    decreases expr,
{
    proof {
        lemma_nameless_indices_in_scope(names_model(scope@), expr@);
    }
    match expr {
        Expr::App(l, r) => {
            let left = remove_names(scope, &**l)?;
            let right = remove_names(scope, &**r)?;
            Ok(NamelessExpr::App(Box::new(left), Box::new(right)))
        },
        Expr::Lam(x, _, b) => {
            scope.push(x.as_str());
            assert(names_model(scope@) =~= names_model(old(scope)@).push(x@));
            let body = remove_names(scope, &**b);
            scope.pop();
            assert(scope@ =~= old(scope)@);
            match body {
                Ok(nb) => Ok(NamelessExpr::Lam(Box::new(nb))),
                Err(e) => Err(e),
            }
        },
        Expr::Lit(n) => Ok(NamelessExpr::Lit(*n)),
        Expr::Var(x) => match find_binder(scope, x.as_str()) {
            Some(i) => Ok(NamelessExpr::Var(i)),
            None => if names_builtin(x.as_str()) {
                Ok(NamelessExpr::Nam(x.clone()))
            } else {
                Err(NameError::UnboundName(x.clone()))
            },
        },
    }
}

/// Whether every name in `expr` is bound: by one of the binders `scope`
/// around it, or by an abstraction inside it. `scope` is the same after the
/// call as before it.
pub fn is_closed<'e>(scope: &mut Vec<&'e str>, expr: &'e Expr) -> (r: bool)
    ensures
        final(scope)@ == old(scope)@,
        r == closed_in(names_model(old(scope)@), expr@),
    decreases expr,
{
    match expr {
        Expr::App(f, a) => is_closed(scope, &**f) && is_closed(scope, &**a),
        Expr::Lam(x, _, b) => {
            scope.push(x.as_str());
            assert(names_model(scope@) =~= names_model(old(scope)@).push(x@));
            let r = is_closed(scope, &**b);
            scope.pop();
            assert(scope@ =~= old(scope)@);
            r
        },
        Expr::Lit(_) => true,
        Expr::Var(x) => find_binder(scope, x.as_str()).is_some(),
    }
}

} // verus!

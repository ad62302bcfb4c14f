use fstlc::nameless::is_closed;
use fstlc::{remove_names, Expr, NameError, NamelessExpr, Type};
use std::sync::Arc;

fn var(name: &str) -> Box<Expr> {
    Box::new(Expr::Var(name.to_string()))
}

fn lam(name: &str, body: Box<Expr>) -> Box<Expr> {
    Box::new(Expr::Lam(name.to_string(), Arc::new(Type::Int), body))
}

fn nlam(body: NamelessExpr) -> NamelessExpr {
    NamelessExpr::Lam(Box::new(body))
}

/// Whether every index of `e` is below `depth` plus the binders around it.
fn indices_below(e: &NamelessExpr, depth: usize) -> bool {
    match e {
        NamelessExpr::App(l, r) => indices_below(l, depth) && indices_below(r, depth),
        NamelessExpr::Lam(b) => indices_below(b, depth + 1),
        NamelessExpr::Lit(_) => true,
        NamelessExpr::Nam(_) => true,
        NamelessExpr::Var(i) => *i < depth,
    }
}

#[test]
fn a_variable_counts_the_binders_up_to_its_own() {
    let expr = lam("x", lam("y", lam("z", Box::new(Expr::App(var("x"), Box::new(Expr::App(var("y"), var("z"))))))));
    let nameless = remove_names(&mut Vec::new(), &expr).unwrap();
    assert_eq!(
        nameless,
        nlam(nlam(nlam(NamelessExpr::App(
            Box::new(NamelessExpr::Var(2)),
            Box::new(NamelessExpr::App(
                Box::new(NamelessExpr::Var(1)),
                Box::new(NamelessExpr::Var(0)),
            )),
        ))))
    );
}

#[test]
fn a_name_refers_to_its_nearest_binder() {
    let expr = lam("x", lam("x", var("x")));
    assert_eq!(
        remove_names(&mut Vec::new(), &expr),
        Ok(nlam(nlam(NamelessExpr::Var(0))))
    );
}

#[test]
fn both_sides_of_an_application_see_the_same_scope() {
    let expr = lam("x", Box::new(Expr::App(lam("y", var("x")), var("x"))));
    assert_eq!(
        remove_names(&mut Vec::new(), &expr),
        Ok(nlam(NamelessExpr::App(
            Box::new(nlam(NamelessExpr::Var(1))),
            Box::new(NamelessExpr::Var(0)),
        )))
    );
}

#[test]
fn builtins_keep_their_names() {
    for name in ["+", "-", "*", "/", "mod", "print"] {
        assert_eq!(
            remove_names(&mut Vec::new(), &Expr::Var(name.to_string())),
            Ok(NamelessExpr::Nam(name.to_string()))
        );
    }
}

#[test]
fn a_binder_hides_the_builtin_of_its_name() {
    let expr = lam("+", var("+"));
    assert_eq!(
        remove_names(&mut Vec::new(), &expr),
        Ok(nlam(NamelessExpr::Var(0)))
    );
}

#[test]
fn a_name_without_binder_or_builtin_is_unbound() {
    assert_eq!(
        remove_names(&mut Vec::new(), &Expr::Var("q".to_string())),
        Err(NameError::UnboundName("q".to_string()))
    );
    assert_eq!(
        remove_names(&mut Vec::new(), &Expr::Var("prin".to_string())),
        Err(NameError::UnboundName("prin".to_string()))
    );
    assert_eq!(
        remove_names(&mut Vec::new(), &Expr::Var("".to_string())),
        Err(NameError::UnboundName("".to_string()))
    );
}

#[test]
fn the_first_unbound_name_is_reported() {
    let expr = Expr::App(var("a"), var("b"));
    assert_eq!(
        remove_names(&mut Vec::new(), &expr),
        Err(NameError::UnboundName("a".to_string()))
    );
    let expr = Expr::App(var("+"), var("b"));
    assert_eq!(
        remove_names(&mut Vec::new(), &expr),
        Err(NameError::UnboundName("b".to_string()))
    );
}

#[test]
fn names_of_the_given_scope_are_bound() {
    let a = Expr::Var("a".to_string());
    let b = Expr::Var("b".to_string());
    let inner = lam("c", Box::new(Expr::App(var("a"), var("c"))));
    let mut scope = vec!["a", "b"];
    assert_eq!(remove_names(&mut scope, &a), Ok(NamelessExpr::Var(1)));
    assert_eq!(remove_names(&mut scope, &b), Ok(NamelessExpr::Var(0)));
    assert_eq!(
        remove_names(&mut scope, &inner),
        Ok(nlam(NamelessExpr::App(
            Box::new(NamelessExpr::Var(2)),
            Box::new(NamelessExpr::Var(0)),
        )))
    );
    assert_eq!(scope, vec!["a", "b"]);
}

#[test]
fn the_scope_is_restored_after_a_failure() {
    let expr = lam("x", lam("y", var("nowhere")));
    let mut scope = vec!["a"];
    assert_eq!(
        remove_names(&mut scope, &expr),
        Err(NameError::UnboundName("nowhere".to_string()))
    );
    assert_eq!(scope, vec!["a"]);
}

#[test]
fn no_index_escapes_its_binders() {
    let closed = Expr::App(
        lam("x", lam("y", Box::new(Expr::App(var("x"), lam("z", Box::new(Expr::App(var("y"), var("z")))))))),
        lam("x", var("x")),
    );
    let nameless = remove_names(&mut Vec::new(), &closed).unwrap();
    assert!(indices_below(&nameless, 0));

    let open = lam("x", Box::new(Expr::App(var("p"), var("x"))));
    let mut scope = vec!["p", "q"];
    let nameless = remove_names(&mut scope, &open).unwrap();
    assert!(indices_below(&nameless, 2));
    assert!(!indices_below(&nameless, 1));
}

#[test]
fn literals_pass_through() {
    assert_eq!(
        remove_names(&mut Vec::new(), &Expr::Lit(137)),
        Ok(NamelessExpr::Lit(137))
    );
}

#[test]
fn nameless_expressions_are_written_with_indices() {
    let e = NamelessExpr::App(
        Box::new(nlam(NamelessExpr::App(
            Box::new(NamelessExpr::Nam("print".to_string())),
            Box::new(NamelessExpr::Var(10)),
        ))),
        Box::new(NamelessExpr::Lit(1337)),
    );
    assert_eq!(e.to_string(), "(λ(print $10) 1337)");
}

#[test]
fn name_errors_are_written_out() {
    assert_eq!(NameError::UnboundName("q".to_string()).to_string(), "Not found: q");
}

#[test]
fn nameless_expressions_are_compared_by_structure() {
    assert_ne!(NamelessExpr::Var(0), NamelessExpr::Var(1));
    assert_ne!(NamelessExpr::Lit(0), NamelessExpr::Var(0));
    assert_ne!(
        NamelessExpr::Nam("+".to_string()),
        NamelessExpr::Nam("-".to_string())
    );
    assert_eq!(nlam(NamelessExpr::Var(0)), nlam(NamelessExpr::Var(0)));
}

#[test]
fn a_closed_expression_uses_only_its_own_binders() {
    let closed = lam("x", Box::new(Expr::App(var("x"), lam("y", var("x")))));
    assert!(is_closed(&mut Vec::new(), &closed));
    let builtin = lam("x", Box::new(Expr::App(var("print"), var("x"))));
    assert!(!is_closed(&mut Vec::new(), &builtin));
    let free = lam("x", var("y"));
    assert!(!is_closed(&mut Vec::new(), &free));
    let mut scope = vec!["y"];
    assert!(is_closed(&mut scope, &free));
    assert_eq!(scope, vec!["y"]);
    assert!(is_closed(&mut Vec::new(), &Expr::Lit(1)));
}

use fstlc::{remove_names, Combinator, Expr, NamelessExpr, StaticCombinator, Type};
use std::sync::Arc;

/// Compiles `id 1337`, checking the state through each step of the process.
#[test]
fn id_1337() {
    const SRC: &str = "(λx:int. x) 1337";

    let expr = SRC.parse::<Expr>().unwrap();
    assert_eq!(
        expr,
        Expr::App(
            Box::new(Expr::Lam(
                "x".to_string(),
                Arc::new(Type::Int),
                Box::new(Expr::Var("x".to_string())),
            )),
            Box::new(Expr::Lit(1337)),
        )
    );
    assert_eq!(expr.to_string(), "((λx:int. x) 1337)");

    let nameless = remove_names(&mut Vec::new(), &expr).unwrap();
    assert_eq!(
        nameless,
        NamelessExpr::App(
            Box::new(NamelessExpr::Lam(Box::new(NamelessExpr::Var(0)))),
            Box::new(NamelessExpr::Lit(1337)),
        )
    );

    let combinator = nameless.to_combinator();
    assert_eq!(
        combinator,
        StaticCombinator::Com(
            Box::new(StaticCombinator::App),
            Box::new(StaticCombinator::Pair(
                Box::new(StaticCombinator::Lam(Box::new(StaticCombinator::Snd))),
                Box::new(StaticCombinator::QuoteNum(1337)),
            )),
        )
    );

    let forth = combinator.to_forth("test");
    assert_eq!(
        forth,
        &[
            &[":", "test-lambda-0", "FSTLC-SND", ";"] as &[_],
            &[
                ":",
                "test-main",
                "0",
                "DUP",
                "'",
                "test-lambda-0",
                "CFA",
                "SWAP",
                "DROP",
                "1337",
                "FSTLC-MAKE-PAIR",
                "FSTLC-APP",
                ";"
            ] as &[_],
        ]
    );

    let combinator = Combinator::Apply(combinator.into(), Box::new(Combinator::Num(0)));
    let c = combinator.clone();
    assert_eq!(c.to_string(), "((App ∘ <Λ(Snd),'1337>) 0)");

    let c = c.eval_step();
    assert_eq!(c.to_string(), "(App (<Λ(Snd),'1337> 0))");

    let c = c.eval_step();
    assert_eq!(c.to_string(), "(Snd (0,('1337 0)))");

    let c = c.eval_step();
    assert_eq!(c.to_string(), "1337");
    assert_eq!(c, Combinator::Num(1337));

    assert_eq!(combinator.eval(), Combinator::Num(1337));
}

fn constant_of_identity() -> Expr {
    Expr::App(
        Box::new(Expr::App(
            Box::new(Expr::Lam(
                "x".to_string(),
                Arc::new(Type::Int),
                Box::new(Expr::Lam(
                    "y".to_string(),
                    Arc::new(Type::Int),
                    Box::new(Expr::Var("x".to_string())),
                )),
            )),
            Box::new(Expr::App(
                Box::new(Expr::Lam(
                    "x".to_string(),
                    Arc::new(Type::Int),
                    Box::new(Expr::Var("x".to_string())),
                )),
                Box::new(Expr::Lit(42)),
            )),
        )),
        Box::new(Expr::Lit(137)),
    )
}

/// Compiles `(λx:int. λy:int. x) ((λx:int. x) 42) 137` and evaluates it.
#[test]
fn const_of_id_42_and_137_is_42() {
    const SRC: &str = "(λx:int. λy:int. x) ((λx:int. x) 42) 137";

    let expr = SRC.parse::<Expr>().unwrap();
    assert_eq!(expr, constant_of_identity());
    assert_eq!(
        expr.to_string(),
        "(((λx:int. (λy:int. x)) ((λx:int. x) 42)) 137)"
    );
    assert_eq!(expr.tyck(), Ok(Arc::new(Type::Int)));

    let nameless = remove_names(&mut Vec::new(), &expr).unwrap();
    assert_eq!(
        nameless,
        NamelessExpr::App(
            Box::new(NamelessExpr::App(
                Box::new(NamelessExpr::Lam(Box::new(NamelessExpr::Lam(Box::new(
                    NamelessExpr::Var(1)
                ))))),
                Box::new(NamelessExpr::App(
                    Box::new(NamelessExpr::Lam(Box::new(NamelessExpr::Var(0)))),
                    Box::new(NamelessExpr::Lit(42))
                )),
            )),
            Box::new(NamelessExpr::Lit(137)),
        )
    );

    let combinator = nameless.to_combinator();
    assert_eq!(
        combinator,
        StaticCombinator::Com(
            Box::new(StaticCombinator::App),
            Box::new(StaticCombinator::Pair(
                Box::new(StaticCombinator::Com(
                    Box::new(StaticCombinator::App),
                    Box::new(StaticCombinator::Pair(
                        Box::new(StaticCombinator::Lam(Box::new(StaticCombinator::Lam(
                            Box::new(StaticCombinator::Com(
                                Box::new(StaticCombinator::Snd),
                                Box::new(StaticCombinator::Fst),
                            )),
                        )))),
                        Box::new(StaticCombinator::Com(
                            Box::new(StaticCombinator::App),
                            Box::new(StaticCombinator::Pair(
                                Box::new(StaticCombinator::Lam(Box::new(StaticCombinator::Snd))),
                                Box::new(StaticCombinator::QuoteNum(42)),
                            )),
                        )),
                    )),
                )),
                Box::new(StaticCombinator::QuoteNum(137)),
            )),
        )
    );

    let forth = combinator.to_forth("test");
    assert_eq!(
        forth,
        &[
            &[":", "test-lambda-0", "FSTLC-FST", "FSTLC-SND", ";"] as &[_],
            &[":", "test-lambda-1", "'", "test-lambda-0", "CFA", ";"] as &[_],
            &[":", "test-lambda-2", "FSTLC-SND", ";"] as &[_],
            &[
                ":",
                "test-main",
                "0",
                "DUP",
                "DUP",
                "'",
                "test-lambda-1",
                "CFA",
                "SWAP",
                "DUP",
                "'",
                "test-lambda-2",
                "CFA",
                "SWAP",
                "DROP",
                "42",
                "FSTLC-MAKE-PAIR",
                "FSTLC-APP",
                "FSTLC-MAKE-PAIR",
                "FSTLC-APP",
                "SWAP",
                "DROP",
                "137",
                "FSTLC-MAKE-PAIR",
                "FSTLC-APP",
                ";"
            ] as &[_],
        ]
    );

    let term = Combinator::Apply(combinator.into(), Box::new(Combinator::Num(0)));
    assert_eq!(term.clone().eval(), Combinator::Num(42));
    assert_eq!(
        term.eval_within(100),
        Some(Combinator::Num(42))
    );
}

/// The passes that take the compiled `id 1337` to its value.
#[test]
fn the_compiled_identity_evaluates_in_three_passes() {
    let compiled = StaticCombinator::Com(
        Box::new(StaticCombinator::App),
        Box::new(StaticCombinator::Pair(
            Box::new(StaticCombinator::Lam(Box::new(StaticCombinator::Snd))),
            Box::new(StaticCombinator::QuoteNum(1337)),
        )),
    );
    let start = Combinator::Apply(Box::new(compiled.into()), Box::new(Combinator::Num(0)));

    let first = start.eval_step();
    assert_eq!(
        first,
        Combinator::Apply(
            Box::new(Combinator::App),
            Box::new(Combinator::Apply(
                Box::new(Combinator::Pair(
                    Box::new(Combinator::Lam(Box::new(Combinator::Snd))),
                    Box::new(Combinator::Quote(Box::new(Combinator::Num(1337)))),
                )),
                Box::new(Combinator::Num(0)),
            )),
        )
    );

    let second = first.eval_step();
    assert_eq!(
        second,
        Combinator::Apply(
            Box::new(Combinator::Snd),
            Box::new(Combinator::DPair(
                Box::new(Combinator::Num(0)),
                Box::new(Combinator::Apply(
                    Box::new(Combinator::Quote(Box::new(Combinator::Num(1337)))),
                    Box::new(Combinator::Num(0)),
                )),
            )),
        )
    );

    let third = second.eval_step();
    assert_eq!(third, Combinator::Num(1337));
    assert_eq!(third.clone().eval_step(), third);
}

/// The value of a program does not depend on the environment it starts in.
#[test]
fn a_closed_program_ignores_its_environment() {
    let combinator = constant_of_identity().to_combinators().unwrap();
    let term = Combinator::Apply(
        combinator.into(),
        Box::new(Combinator::Name("end-of-env".to_string())),
    );
    assert_eq!(term.eval(), Combinator::Num(42));
}

/// Evaluating twice gives what evaluating once gives.
#[test]
fn evaluation_is_idempotent() {
    let combinator = constant_of_identity().to_combinators().unwrap();
    let term = Combinator::Apply(combinator.into(), Box::new(Combinator::Num(0)));
    let once = term.eval();
    let twice = once.clone().eval();
    assert_eq!(twice, once);
}

/// A program that hands a function on evaluates to a closure.
#[test]
fn a_partial_application_evaluates_to_a_closure() {
    let expr = Expr::App(
        Box::new(Expr::Lam(
            "x".to_string(),
            Arc::new(Type::Int),
            Box::new(Expr::Lam(
                "y".to_string(),
                Arc::new(Type::Int),
                Box::new(Expr::Var("x".to_string())),
            )),
        )),
        Box::new(Expr::Lit(5)),
    );
    assert_eq!(
        expr.tyck(),
        Ok(Arc::new(Type::Arr(Arc::new(Type::Int), Arc::new(Type::Int))))
    );
    let combinator = expr.to_combinators().unwrap();
    let term = Combinator::Apply(combinator.into(), Box::new(Combinator::Num(0)));
    assert_eq!(
        term.eval(),
        Combinator::Apply(
            Box::new(Combinator::Lam(Box::new(Combinator::Com(
                Box::new(Combinator::Snd),
                Box::new(Combinator::Fst),
            )))),
            Box::new(Combinator::DPair(
                Box::new(Combinator::Num(0)),
                Box::new(Combinator::Num(5)),
            )),
        )
    );
}

/// A function that is handed to a function: `twice id 7`.
#[test]
fn a_function_applied_twice_computes_the_value_of_the_source() {
    const SRC: &str = "(λf:int -> int. λx:int. f (f x)) (λy:int. y) 7";

    let expr = SRC.parse::<Expr>().unwrap();
    assert_eq!(expr.tyck(), Ok(Arc::new(Type::Int)));
    let combinator = expr.to_combinators().unwrap();
    let term = Combinator::Apply(combinator.into(), Box::new(Combinator::Num(0)));
    assert_eq!(term.eval(), Combinator::Num(7));
}

/// A function that returns a function: `(λx. λy. y) 1 2`.
#[test]
fn the_inner_binding_is_the_nearest() {
    let expr = "(λx:int. λy:int. y) 1 2".parse::<Expr>().unwrap();
    assert_eq!(expr.tyck(), Ok(Arc::new(Type::Int)));
    let combinator = expr.to_combinators().unwrap();
    let term = Combinator::Apply(combinator.into(), Box::new(Combinator::Num(0)));
    assert_eq!(term.eval(), Combinator::Num(2));
}

/// A builtin has no rule: a program that uses one stops at the call.
#[test]
fn a_builtin_is_left_as_a_name() {
    let expr = "print 3".parse::<Expr>().unwrap();
    assert_eq!(expr.tyck(), Ok(Arc::new(Type::Int)));
    let combinator = expr.to_combinators().unwrap();
    let term = Combinator::Apply(combinator.into(), Box::new(Combinator::Num(0)));
    assert_eq!(
        term.eval(),
        Combinator::Apply(
            Box::new(Combinator::App),
            Box::new(Combinator::DPair(
                Box::new(Combinator::Name("print".to_string())),
                Box::new(Combinator::Num(3)),
            )),
        )
    );
}

/// What the type checker accepts has a nameless form.
#[test]
fn whatever_typechecks_compiles() {
    let sources = [
        "1",
        "print",
        "+ 1 2",
        "λx:int. x",
        "(λf:int -> int -> int. f 1 2) +",
        "λprint:int. print",
        "x",
        "1 2",
        "print print",
        "λx:int. y",
    ];
    let mut accepted = 0;
    for source in sources {
        let expr = source.parse::<Expr>().unwrap();
        if expr.tyck().is_ok() {
            accepted += 1;
            assert!(expr.to_combinators().is_ok());
            assert!(expr.compile("p").is_ok());
        }
    }
    assert_eq!(accepted, 6);
}

/// A closed program of type `int` is run to its value.
#[test]
fn a_closed_program_of_type_int_has_a_number() {
    let value = |source: &str| source.parse::<Expr>().unwrap().evaluate();
    assert_eq!(value("1337"), Some(1337));
    assert_eq!(value("(λx:int. x) 1337"), Some(1337));
    assert_eq!(value("(λx:int. λy:int. x) ((λx:int. x) 42) 137"), Some(42));
    assert_eq!(value("(λf:int -> int. λx:int. f (f x)) (λy:int. y) 7"), Some(7));
    assert_eq!(
        value("(λf:(int -> int) -> int. f (λz:int. 9)) (λg:int -> int. g 0)"),
        Some(9)
    );
    assert_eq!(value("(λprint:int. print) 5"), Some(5));
}

/// Other programs are not run.
#[test]
fn other_programs_have_no_number() {
    let value = |source: &str| source.parse::<Expr>().unwrap().evaluate();
    assert_eq!(value("print 3"), None);
    assert_eq!(value("+ 1 2"), None);
    assert_eq!(value("λx:int. x"), None);
    assert_eq!(value("x"), None);
    assert_eq!(value("1 2"), None);
    assert_eq!(value("(λx:int. x) print"), None);
}

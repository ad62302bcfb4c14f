use fstlc::{Expr, NameError, NamelessExpr, StaticCombinator, Type};
use std::sync::Arc;

fn com(l: StaticCombinator, r: StaticCombinator) -> StaticCombinator {
    StaticCombinator::Com(Box::new(l), Box::new(r))
}

fn pair(l: StaticCombinator, r: StaticCombinator) -> StaticCombinator {
    StaticCombinator::Pair(Box::new(l), Box::new(r))
}

fn slam(b: StaticCombinator) -> StaticCombinator {
    StaticCombinator::Lam(Box::new(b))
}

fn words(definition: &[&str]) -> Vec<String> {
    definition.iter().map(|w| w.to_string()).collect()
}

#[test]
fn the_nearest_binding_is_the_right_projection() {
    assert_eq!(NamelessExpr::Var(0).to_combinator(), StaticCombinator::Snd);
}

#[test]
fn a_deeper_binding_is_reached_through_fst() {
    assert_eq!(
        NamelessExpr::Var(1).to_combinator(),
        com(StaticCombinator::Snd, StaticCombinator::Fst)
    );
    assert_eq!(
        NamelessExpr::Var(3).to_combinator(),
        com(
            com(
                com(StaticCombinator::Snd, StaticCombinator::Fst),
                StaticCombinator::Fst
            ),
            StaticCombinator::Fst
        )
    );
}

#[test]
fn literals_and_builtins_are_quoted() {
    assert_eq!(
        NamelessExpr::Lit(7).to_combinator(),
        StaticCombinator::QuoteNum(7)
    );
    assert_eq!(
        NamelessExpr::Nam("mod".to_string()).to_combinator(),
        StaticCombinator::QuoteName("mod".to_string())
    );
}

#[test]
fn an_application_pairs_both_sides_and_applies() {
    let e = NamelessExpr::App(
        Box::new(NamelessExpr::Nam("print".to_string())),
        Box::new(NamelessExpr::Lit(3)),
    );
    assert_eq!(
        e.to_combinator(),
        com(
            StaticCombinator::App,
            pair(
                StaticCombinator::QuoteName("print".to_string()),
                StaticCombinator::QuoteNum(3)
            )
        )
    );
}

#[test]
fn an_abstraction_keeps_its_structure() {
    let e = NamelessExpr::Lam(Box::new(NamelessExpr::Lam(Box::new(NamelessExpr::Var(1)))));
    assert_eq!(
        e.to_combinator(),
        slam(slam(com(StaticCombinator::Snd, StaticCombinator::Fst)))
    );
}

#[test]
fn compiling_twice_gives_the_same_combinator() {
    let e = NamelessExpr::App(
        Box::new(NamelessExpr::Lam(Box::new(NamelessExpr::Var(0)))),
        Box::new(NamelessExpr::Nam("+".to_string())),
    );
    assert_eq!(e.to_combinator(), e.to_combinator());
}

#[test]
fn primitives_are_single_words() {
    assert_eq!(
        StaticCombinator::App.to_forth("p"),
        vec![words(&[":", "p-main", "0", "FSTLC-APP", ";"])]
    );
    assert_eq!(
        StaticCombinator::Fst.to_forth("p"),
        vec![words(&[":", "p-main", "0", "FSTLC-FST", ";"])]
    );
    assert_eq!(
        StaticCombinator::Snd.to_forth("p"),
        vec![words(&[":", "p-main", "0", "FSTLC-SND", ";"])]
    );
}

#[test]
fn quotations_drop_the_current_value() {
    assert_eq!(
        StaticCombinator::QuoteName("+".to_string()).to_forth("p"),
        vec![words(&[":", "p-main", "0", "DROP", "'", "+", ";"])]
    );
    assert_eq!(
        StaticCombinator::QuoteNum(4294967295).to_forth("p"),
        vec![words(&[":", "p-main", "0", "DROP", "4294967295", ";"])]
    );
}

#[test]
fn a_composition_runs_its_right_side_first() {
    assert_eq!(
        com(StaticCombinator::Snd, StaticCombinator::Fst).to_forth(""),
        vec![words(&[":", "-main", "0", "FSTLC-FST", "FSTLC-SND", ";"])]
    );
}

#[test]
fn a_pair_runs_both_sides_on_copies() {
    assert_eq!(
        pair(StaticCombinator::Fst, StaticCombinator::Snd).to_forth("p"),
        vec![words(&[
            ":",
            "p-main",
            "0",
            "DUP",
            "FSTLC-FST",
            "SWAP",
            "FSTLC-SND",
            "FSTLC-MAKE-PAIR",
            ";"
        ])]
    );
}

#[test]
fn nested_abstractions_are_hoisted_inside_out() {
    let c = slam(slam(com(StaticCombinator::Snd, StaticCombinator::Fst)));
    assert_eq!(
        c.to_forth("k"),
        vec![
            words(&[":", "k-lambda-0", "FSTLC-FST", "FSTLC-SND", ";"]),
            words(&[":", "k-lambda-1", "'", "k-lambda-0", "CFA", ";"]),
            words(&[":", "k-main", "0", "'", "k-lambda-1", "CFA", ";"]),
        ]
    );
}

#[test]
fn definitions_are_numbered_in_the_order_of_emission() {
    let c = com(
        slam(StaticCombinator::Fst),
        pair(slam(StaticCombinator::Snd), slam(StaticCombinator::App)),
    );
    assert_eq!(
        c.to_forth("o"),
        vec![
            words(&[":", "o-lambda-0", "FSTLC-SND", ";"]),
            words(&[":", "o-lambda-1", "FSTLC-APP", ";"]),
            words(&[":", "o-lambda-2", "FSTLC-FST", ";"]),
            words(&[
                ":",
                "o-main",
                "0",
                "DUP",
                "'",
                "o-lambda-0",
                "CFA",
                "SWAP",
                "'",
                "o-lambda-1",
                "CFA",
                "FSTLC-MAKE-PAIR",
                "'",
                "o-lambda-2",
                "CFA",
                ";"
            ]),
        ]
    );
}

#[test]
fn hoisted_definitions_have_names_of_their_own() {
    let mut c = slam(StaticCombinator::Snd);
    for _ in 0..11 {
        c = pair(c, slam(slam(StaticCombinator::Fst)));
    }
    let definitions = c.to_forth("many");
    assert_eq!(definitions.len(), 24);
    let names: Vec<&String> = definitions.iter().map(|d| &d[1]).collect();
    for i in 0..names.len() {
        for j in 0..i {
            assert_ne!(names[i], names[j]);
        }
    }
    assert_eq!(names[0], "many-lambda-0");
    assert_eq!(names[10], "many-lambda-10");
    assert_eq!(names[22], "many-lambda-22");
    assert_eq!(names[23], "many-main");
    for d in &definitions {
        assert_eq!(d[0], ":");
        assert_eq!(d[d.len() - 1], ";");
    }
}

#[test]
fn each_compilation_numbers_from_zero() {
    let c = slam(StaticCombinator::Snd);
    assert_eq!(c.to_forth("a"), c.to_forth("a"));
    assert_eq!(c.to_forth("a")[0][1], "a-lambda-0");
    assert_eq!(c.to_forth("b")[0][1], "b-lambda-0");
}

#[test]
fn static_combinators_are_written_out() {
    let c = com(
        StaticCombinator::App,
        pair(
            slam(com(StaticCombinator::Snd, StaticCombinator::Fst)),
            StaticCombinator::QuoteName("+".to_string()),
        ),
    );
    assert_eq!(c.to_string(), "App ∘ <Λ(Snd ∘ Fst),'+>");
    assert_eq!(StaticCombinator::QuoteNum(1337).to_string(), "'1337");
}

#[test]
fn static_combinators_are_compared_by_structure() {
    assert_ne!(StaticCombinator::Fst, StaticCombinator::Snd);
    assert_ne!(
        StaticCombinator::QuoteNum(1),
        StaticCombinator::QuoteName("1".to_string())
    );
    assert_ne!(
        com(StaticCombinator::Fst, StaticCombinator::Snd),
        pair(StaticCombinator::Fst, StaticCombinator::Snd)
    );
    assert_eq!(slam(StaticCombinator::App), slam(StaticCombinator::App));
}

#[test]
fn an_expression_compiles_to_definitions() {
    let expr = Expr::App(
        Box::new(Expr::Lam(
            "x".to_string(),
            Arc::new(Type::Int),
            Box::new(Expr::Var("x".to_string())),
        )),
        Box::new(Expr::Lit(1337)),
    );
    assert_eq!(
        expr.to_combinators(),
        Ok(com(
            StaticCombinator::App,
            pair(slam(StaticCombinator::Snd), StaticCombinator::QuoteNum(1337))
        ))
    );
    assert_eq!(
        expr.compile("test"),
        Ok(vec![
            words(&[":", "test-lambda-0", "FSTLC-SND", ";"]),
            words(&[
                ":",
                "test-main",
                "0",
                "DUP",
                "'",
                "test-lambda-0",
                "CFA",
                "SWAP",
                "DROP",
                "1337",
                "FSTLC-MAKE-PAIR",
                "FSTLC-APP",
                ";"
            ]),
        ])
    );
}

#[test]
fn an_expression_with_an_unbound_name_does_not_compile() {
    let expr = Expr::App(
        Box::new(Expr::Var("print".to_string())),
        Box::new(Expr::Var("x".to_string())),
    );
    assert_eq!(
        expr.to_combinators(),
        Err(NameError::UnboundName("x".to_string()))
    );
    assert_eq!(
        expr.compile("test"),
        Err(NameError::UnboundName("x".to_string()))
    );
}

#[test]
fn names_are_the_prefix_and_a_number() {
    let c = pair(slam(StaticCombinator::Snd), slam(StaticCombinator::Fst));
    assert_eq!(
        c.to_forth("p"),
        vec![
            words(&[":", "p-lambda-0", "FSTLC-SND", ";"]),
            words(&[":", "p-lambda-1", "FSTLC-FST", ";"]),
            words(&[
                ":",
                "p-main",
                "0",
                "DUP",
                "'",
                "p-lambda-0",
                "CFA",
                "SWAP",
                "'",
                "p-lambda-1",
                "CFA",
                "FSTLC-MAKE-PAIR",
                ";"
            ]),
        ]
    );
}

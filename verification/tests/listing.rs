use fstlc::output::render;
use fstlc::text::{decimal_string, same_text};
use fstlc::{Expr, Type};
use std::sync::Arc;

fn words(definition: &[&str]) -> Vec<String> {
    definition.iter().map(|w| w.to_string()).collect()
}

#[test]
fn a_program_is_listed_behind_the_prelude() {
    let expr = Expr::App(
        Box::new(Expr::Lam(
            "x".to_string(),
            Arc::new(Type::Int),
            Box::new(Expr::Var("x".to_string())),
        )),
        Box::new(Expr::Lit(1337)),
    );
    let ty = expr.tyck().unwrap();
    let definitions = expr.compile("test").unwrap();
    let text = render("\\ runtime words\n", &expr, &ty, &definitions);
    assert_eq!(
        text,
        "\\ runtime words\n\n\
         \\ expr = ((λx:int. x) 1337)\n\
         \\ type = int\n\
         : test-lambda-0 FSTLC-SND ;\n\
         : test-main 0 DUP ' test-lambda-0 CFA SWAP DROP 1337 FSTLC-MAKE-PAIR FSTLC-APP ;\n"
    );
}

#[test]
fn words_are_joined_by_single_spaces() {
    let definitions = vec![
        words(&["one"]),
        words(&[]),
        words(&["a", "", "b"]),
        words(&[":", "λ", ";"]),
    ];
    let text = render("", &Expr::Lit(1), &Type::Int, &definitions);
    assert_eq!(
        text,
        "\n\\ expr = 1\n\\ type = int\none\n\na  b\n: λ ;\n"
    );
}

#[test]
fn a_program_without_definitions_is_its_header() {
    let ty = Type::Arr(Arc::new(Type::Int), Arc::new(Type::Int));
    let text = render("P", &Expr::Var("print".to_string()), &ty, &Vec::new());
    assert_eq!(text, "P\n\\ expr = print\n\\ type = (int) -> int\n");
}

#[test]
fn numbers_are_written_in_decimal() {
    assert_eq!(decimal_string(0), "0");
    assert_eq!(decimal_string(7), "7");
    assert_eq!(decimal_string(10), "10");
    assert_eq!(decimal_string(1337), "1337");
    assert_eq!(decimal_string(90210), "90210");
    assert_eq!(decimal_string(4294967295), "4294967295");
    assert_eq!(decimal_string(18446744073709551615), "18446744073709551615");
}

#[test]
fn texts_are_compared_by_their_characters() {
    assert!(same_text("", ""));
    assert!(same_text("mod", "mod"));
    assert!(same_text("λx", "λx"));
    assert!(!same_text("mod", "mode"));
    assert!(!same_text("mode", "mod"));
    assert!(!same_text("a", "b"));
    assert!(!same_text("λ", "Λ"));
    assert!(!same_text("", "x"));
}

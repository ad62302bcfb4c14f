use fstlc::{Combinator, DynamicCombinator, StaticCombinator};

fn apply(l: Combinator, r: Combinator) -> Combinator {
    Combinator::Apply(Box::new(l), Box::new(r))
}

fn com(l: Combinator, r: Combinator) -> Combinator {
    Combinator::Com(Box::new(l), Box::new(r))
}

fn pair(l: Combinator, r: Combinator) -> Combinator {
    Combinator::Pair(Box::new(l), Box::new(r))
}

fn dpair(l: Combinator, r: Combinator) -> Combinator {
    Combinator::DPair(Box::new(l), Box::new(r))
}

fn lam(b: Combinator) -> Combinator {
    Combinator::Lam(Box::new(b))
}

fn quote(x: Combinator) -> Combinator {
    Combinator::Quote(Box::new(x))
}

fn num(n: u32) -> Combinator {
    Combinator::Num(n)
}

/// A term that applies itself to itself for ever.
fn omega() -> Combinator {
    let duplicate = lam(com(
        Combinator::App,
        pair(Combinator::Snd, Combinator::Snd),
    ));
    apply(
        com(Combinator::App, pair(duplicate.clone(), duplicate)),
        num(0),
    )
}

#[test]
fn a_quotation_drops_its_argument() {
    assert_eq!(apply(quote(num(5)), Combinator::Fst).eval_step(), num(5));
}

#[test]
fn a_composition_applies_its_right_side_first() {
    assert_eq!(
        apply(com(Combinator::Fst, Combinator::Snd), num(1)).eval_step(),
        apply(Combinator::Fst, apply(Combinator::Snd, num(1)))
    );
}

#[test]
fn a_pair_former_fans_its_argument_out() {
    assert_eq!(
        apply(pair(Combinator::Fst, Combinator::Snd), num(1)).eval_step(),
        dpair(
            apply(Combinator::Fst, num(1)),
            apply(Combinator::Snd, num(1))
        )
    );
}

#[test]
fn app_runs_a_closure_on_its_environment_and_argument() {
    let closure = apply(lam(Combinator::Snd), num(1));
    assert_eq!(
        apply(Combinator::App, dpair(closure, num(2))).eval_step(),
        apply(Combinator::Snd, dpair(num(1), num(2)))
    );
}

#[test]
fn app_waits_for_a_closure() {
    let no_pair = apply(Combinator::App, num(3));
    assert_eq!(no_pair.clone().eval_step(), no_pair);
    let no_application = apply(Combinator::App, dpair(num(1), num(2)));
    assert_eq!(no_application.clone().eval_step(), no_application);
    let no_lambda = apply(
        Combinator::App,
        dpair(apply(Combinator::Name("f".to_string()), num(1)), num(2)),
    );
    assert_eq!(no_lambda.clone().eval_step(), no_lambda);
}

#[test]
fn app_sees_the_closure_that_a_pass_has_just_made() {
    let pending = apply(
        Combinator::App,
        dpair(apply(quote(apply(lam(Combinator::Fst), num(1))), num(9)), num(2)),
    );
    assert_eq!(
        pending.eval_step(),
        apply(Combinator::Fst, dpair(num(1), num(2)))
    );
}

#[test]
fn projections_take_a_pair_apart() {
    assert_eq!(
        apply(Combinator::Fst, dpair(num(1), num(2))).eval_step(),
        num(1)
    );
    assert_eq!(
        apply(Combinator::Snd, dpair(num(1), num(2))).eval_step(),
        num(2)
    );
    let stuck = apply(Combinator::Fst, num(1));
    assert_eq!(stuck.clone().eval_step(), stuck);
    let stuck = apply(Combinator::Snd, pair(num(1), num(2)));
    assert_eq!(stuck.clone().eval_step(), stuck);
}

#[test]
fn operands_are_rewritten_before_the_application() {
    let t = apply(
        Combinator::Fst,
        apply(pair(quote(num(1)), quote(num(2))), num(0)),
    );
    assert_eq!(t.eval_step(), apply(quote(num(1)), num(0)));
}

#[test]
fn the_first_rule_that_matches_is_taken() {
    let t = apply(quote(num(1)), dpair(num(2), num(3)));
    assert_eq!(t.eval_step(), num(1));
}

#[test]
fn every_part_of_a_term_is_rewritten() {
    let redex = apply(quote(num(1)), num(2));
    assert_eq!(lam(redex.clone()).eval_step(), lam(num(1)));
    assert_eq!(quote(redex.clone()).eval_step(), quote(num(1)));
    assert_eq!(
        com(redex.clone(), redex.clone()).eval_step(),
        com(num(1), num(1))
    );
    assert_eq!(
        pair(redex.clone(), redex.clone()).eval_step(),
        pair(num(1), num(1))
    );
    assert_eq!(
        dpair(redex.clone(), redex.clone()).eval_step(),
        dpair(num(1), num(1))
    );
}

#[test]
fn atoms_are_normal() {
    for atom in [
        Combinator::App,
        Combinator::Fst,
        Combinator::Snd,
        Combinator::Name("end-of-env".to_string()),
        num(0),
    ] {
        assert_eq!(atom.clone().eval_step(), atom);
        assert_eq!(atom.clone().eval(), atom);
    }
}

#[test]
fn a_closure_is_normal() {
    let closure = apply(lam(Combinator::Snd), num(1));
    assert_eq!(closure.clone().eval(), closure);
}

#[test]
fn evaluation_rewrites_until_nothing_changes() {
    let t = apply(
        com(Combinator::Fst, Combinator::Snd),
        dpair(num(1), dpair(num(2), num(3))),
    );
    assert_eq!(t.eval(), num(2));
}

#[test]
fn evaluating_a_normal_form_changes_nothing() {
    let t = apply(
        com(
            Combinator::App,
            pair(lam(Combinator::Snd), pair(quote(num(1)), Combinator::Fst)),
        ),
        num(0),
    );
    let once = t.eval();
    assert_eq!(once, dpair(num(1), apply(Combinator::Fst, num(0))));
    assert_eq!(once.clone().eval_step(), once);
    assert_eq!(once.clone().eval(), once);
}

#[test]
fn bounded_evaluation_agrees_with_evaluation() {
    let t = apply(
        com(
            Combinator::App,
            pair(lam(Combinator::Snd), quote(num(1337))),
        ),
        num(0),
    );
    assert_eq!(t.clone().eval_within(0), None);
    assert_eq!(t.clone().eval_within(3), None);
    assert_eq!(t.clone().eval_within(4), Some(num(1337)));
    assert_eq!(t.clone().eval_within(1000), Some(t.eval()));
}

#[test]
fn bounded_evaluation_of_a_normal_term_takes_one_pass() {
    assert_eq!(num(7).eval_within(0), None);
    assert_eq!(num(7).eval_within(1), Some(num(7)));
}

#[test]
fn bounded_evaluation_gives_up_on_a_term_without_normal_form() {
    assert_eq!(omega().eval_within(0), None);
    assert_eq!(omega().eval_within(1), None);
    assert_eq!(omega().eval_within(500), None);
}

#[test]
fn a_term_without_normal_form_comes_back_to_itself() {
    let t = omega().eval_step().eval_step();
    let back = t.clone().eval_step().eval_step().eval_step();
    assert_eq!(back, t);
    assert_ne!(t.clone().eval_step(), t);
}

#[test]
fn static_combinators_lift_into_the_dynamic_algebra() {
    let c = StaticCombinator::Com(
        Box::new(StaticCombinator::App),
        Box::new(StaticCombinator::Pair(
            Box::new(StaticCombinator::Lam(Box::new(StaticCombinator::Fst))),
            Box::new(StaticCombinator::Com(
                Box::new(StaticCombinator::QuoteName("+".to_string())),
                Box::new(StaticCombinator::QuoteNum(2)),
            )),
        )),
    );
    let lifted = DynamicCombinator::from(c);
    assert_eq!(
        lifted,
        com(
            Combinator::App,
            pair(
                lam(Combinator::Fst),
                com(quote(Combinator::Name("+".to_string())), quote(num(2)))
            )
        )
    );
    assert_eq!(lifted.clone().eval_step(), lifted);
}

#[test]
fn lifting_works_through_boxes() {
    let boxed: Box<Combinator> = StaticCombinator::Snd.into();
    assert_eq!(*boxed, Combinator::Snd);
    let from_box: Combinator = Box::new(StaticCombinator::QuoteNum(3)).into();
    assert_eq!(from_box, quote(num(3)));
    let box_to_box: Box<Combinator> = Box::new(StaticCombinator::Fst).into();
    assert_eq!(*box_to_box, Combinator::Fst);
}

#[test]
fn dynamic_combinators_are_written_out() {
    assert_eq!(
        apply(
            com(Combinator::App, pair(lam(Combinator::Snd), quote(num(1337)))),
            Combinator::Name("end-of-env".to_string())
        )
        .to_string(),
        "((App ∘ <Λ(Snd),'1337>) end-of-env)"
    );
    assert_eq!(
        dpair(Combinator::Fst, dpair(num(0), Combinator::App)).to_string(),
        "(Fst,(0,App))"
    );
}

#[test]
fn a_clone_is_equal_to_what_it_copies() {
    let t = omega();
    assert_eq!(t.clone(), t);
    assert_ne!(t.clone().eval_step(), t);
    assert_ne!(num(1), num(2));
    assert_ne!(
        Combinator::Name("a".to_string()),
        Combinator::Name("b".to_string())
    );
    assert_ne!(pair(num(1), num(2)), dpair(num(1), num(2)));
}

#[test]
fn a_trace_holds_every_term_up_to_the_normal_form() {
    let t = apply(
        com(
            Combinator::App,
            pair(lam(Combinator::Snd), quote(num(1337))),
        ),
        num(0),
    );
    let steps = t.clone().trace_within(10);
    assert_eq!(steps.len(), 4);
    let texts: Vec<String> = steps.iter().map(|s| s.to_string()).collect();
    assert_eq!(
        texts,
        vec![
            "((App ∘ <Λ(Snd),'1337>) 0)",
            "(App (<Λ(Snd),'1337> 0))",
            "(Snd (0,('1337 0)))",
            "1337"
        ]
    );
    assert_eq!(steps[0], t);
    assert_eq!(steps[3], t.clone().eval());
    assert_eq!(t.clone().trace_within(4), steps);
}

#[test]
fn a_trace_stops_at_its_limit() {
    let t = apply(
        com(
            Combinator::App,
            pair(lam(Combinator::Snd), quote(num(1337))),
        ),
        num(0),
    );
    assert_eq!(t.clone().trace_within(0), vec![t.clone()]);
    let three = t.clone().trace_within(3);
    assert_eq!(three.len(), 4);
    assert_eq!(three[3], num(1337));
    let two = t.clone().trace_within(2);
    assert_eq!(two.len(), 3);
    assert_eq!(two[2], t.clone().eval_step().eval_step());
    assert_eq!(omega().trace_within(7).len(), 8);
}

#[test]
fn the_trace_of_a_normal_term_is_the_term() {
    assert_eq!(num(7).trace_within(0), vec![num(7)]);
    assert_eq!(num(7).trace_within(1), vec![num(7)]);
    assert_eq!(num(7).trace_within(100), vec![num(7)]);
}

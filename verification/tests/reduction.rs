use kombi::{LambdaTerm, Outcome};

fn var(idx: u64) -> LambdaTerm {
    LambdaTerm::Variable { idx }
}

fn lam(body: LambdaTerm) -> LambdaTerm {
    LambdaTerm::Abstraction { argument_type: None, body: Box::new(body) }
}

fn app(function: LambdaTerm, argument: LambdaTerm) -> LambdaTerm {
    LambdaTerm::Application { function: Box::new(function), argument: Box::new(argument) }
}

fn parse(text: &str) -> LambdaTerm {
    LambdaTerm::from_str(text).unwrap()
}

fn normal(outcome: Outcome) -> LambdaTerm {
    match outcome {
        Outcome::Normal(term) => term,
        other => panic!("{:?}", other),
    }
}

#[test]
fn replace_idx_replaces_the_matching_variable() {
    assert_eq!(var(2).replace_idx(lam(var(0)), 2), lam(var(0)));
}

#[test]
fn replace_idx_leaves_other_variables() {
    assert_eq!(var(3).replace_idx(lam(var(0)), 2), var(3));
    assert_eq!(var(1).replace_idx(lam(var(0)), 2), var(1));
}

#[test]
fn replace_idx_counts_the_binders_it_passes() {
    let term = lam(lam(app(var(2), var(0))));
    assert_eq!(term.replace_idx(var(9), 0), lam(lam(app(var(9), var(0)))));
}

#[test]
fn replace_idx_goes_into_both_sides_of_an_application() {
    let term = app(var(0), app(var(1), var(0)));
    assert_eq!(term.replace_idx(lam(var(0)), 0), app(lam(var(0)), app(var(1), lam(var(0)))));
}

#[test]
fn replace_idx_puts_the_replacement_in_unshifted() {
    assert_eq!(lam(var(1)).replace_idx(var(0), 0), lam(var(0)));
}

#[test]
fn replace_idx_keeps_annotations() {
    let term = LambdaTerm::Abstraction {
        argument_type: Some(kombi::Type::BaseType("A".to_string())),
        body: Box::new(var(1)),
    };
    let expected = LambdaTerm::Abstraction {
        argument_type: Some(kombi::Type::BaseType("A".to_string())),
        body: Box::new(var(5)),
    };
    assert_eq!(term.replace_idx(var(5), 0), expected);
}

#[test]
fn replace_idx_at_the_largest_index() {
    assert_eq!(var(u64::MAX).replace_idx(var(7), u64::MAX), var(7));
    assert_eq!(lam(var(u64::MAX)).replace_idx(var(7), u64::MAX), lam(var(u64::MAX)));
    assert_eq!(
        app(var(u64::MAX), lam(var(0))).replace_idx(var(7), u64::MAX),
        app(var(7), lam(var(0)))
    );
}

#[test]
fn identity_applied_to_identity_is_identity() {
    let term = parse("((λx.x) (λy.y))");
    let reduced = term.beta_reduce();
    assert_eq!(reduced, lam(var(0)));
    assert_eq!(reduced.to_string(), "λ 0");
}

#[test]
fn identity_returns_a_normal_argument_unchanged() {
    let argument = lam(lam(app(var(1), var(0))));
    let term = app(lam(var(0)), argument.clone());
    assert_eq!(term.beta_reduce(), argument);
}

#[test]
fn identity_applied_to_an_application_reduces_it_too() {
    let term = parse("((λx.x) ((λy.y) (λz.(λw.z))))");
    assert_eq!(term.beta_reduce(), lam(lam(var(1))));
}

#[test]
fn constant_function_returns_its_first_argument() {
    let term = parse("(((λx.(λy.x)) (λa.(λb.(λc.a)))) (λd.d))");
    let reduced = term.beta_reduce();
    assert_eq!(reduced, lam(lam(lam(var(2)))));
    assert_eq!(reduced.to_string(), "λ λ λ 2");
}

#[test]
fn constant_function_takes_two_steps() {
    let term = parse("(((λx.(λy.x)) (λa.a)) (λb.(λc.b)))");
    assert!(matches!(term.beta_reduce_within(0), Outcome::OutOfSteps));
    assert!(matches!(term.beta_reduce_within(1), Outcome::OutOfSteps));
    assert_eq!(normal(term.beta_reduce_within(2)), lam(var(0)));
    assert_eq!(normal(term.beta_reduce_within(3)), lam(var(0)));
}

#[test]
fn arguments_are_substituted_unreduced() {
    let term = parse("((λx.(λy.x)) ((λa.a) (λb.b)))");
    let reduced = term.beta_reduce();
    assert_eq!(reduced, lam(app(lam(var(0)), lam(var(0)))));
    assert_eq!(reduced.to_string(), "λ (λ 0) λ 0");
}

#[test]
fn nothing_is_reduced_under_an_abstraction() {
    let term = parse("(λx.((λy.y) x))");
    assert_eq!(term.beta_reduce(), lam(app(lam(var(0)), var(0))));
    assert_eq!(normal(term.beta_reduce_within(0)), lam(app(lam(var(0)), var(0))));
}

#[test]
fn a_variable_is_in_normal_form() {
    assert_eq!(normal(var(4).beta_reduce_within(0)), var(4));
}

#[test]
fn the_function_is_reduced_before_it_is_applied() {
    let term = parse("(((λx.x) (λy.y)) (λz.(λw.w)))");
    assert!(matches!(term.beta_reduce_within(1), Outcome::OutOfSteps));
    assert_eq!(normal(term.beta_reduce_within(2)), lam(lam(var(0))));
}

#[test]
fn self_application_of_self_application_runs_out_of_steps() {
    let term = parse("((λx.(x x)) (λx.(x x)))");
    assert!(matches!(term.beta_reduce_within(0), Outcome::OutOfSteps));
    assert!(matches!(term.beta_reduce_within(1), Outcome::OutOfSteps));
    assert!(matches!(term.beta_reduce_within(1000), Outcome::OutOfSteps));
}

#[test]
fn a_free_variable_at_the_head_is_stuck() {
    assert!(matches!(app(var(0), lam(var(0))).beta_reduce_within(10), Outcome::Stuck));
    assert!(matches!(app(var(0), lam(var(0))).beta_reduce_within(0), Outcome::Stuck));
    let later = app(app(lam(var(0)), var(3)), lam(var(0)));
    assert!(matches!(later.beta_reduce_within(0), Outcome::OutOfSteps));
    assert!(matches!(later.beta_reduce_within(1), Outcome::Stuck));
}

#[test]
fn reduction_leaves_the_term_it_was_given() {
    let term = parse("((λx.x) (λy.y))");
    let _ = term.beta_reduce();
    assert_eq!(term, app(lam(var(0)), lam(var(0))));
}

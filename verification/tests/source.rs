use kombi::{LambdaTerm, Type};

fn base(name: &str) -> Type {
    Type::BaseType(name.to_string())
}

fn function(argument: Type, result: Type) -> Type {
    Type::FunctionType(Box::new(argument), Box::new(result))
}

fn var(idx: u64) -> LambdaTerm {
    LambdaTerm::Variable { idx }
}

fn lam(body: LambdaTerm) -> LambdaTerm {
    LambdaTerm::Abstraction { argument_type: None, body: Box::new(body) }
}

fn typed(argument_type: Type, body: LambdaTerm) -> LambdaTerm {
    LambdaTerm::Abstraction { argument_type: Some(argument_type), body: Box::new(body) }
}

fn app(function: LambdaTerm, argument: LambdaTerm) -> LambdaTerm {
    LambdaTerm::Application { function: Box::new(function), argument: Box::new(argument) }
}

fn nested(binders: u64, body: LambdaTerm) -> LambdaTerm {
    let mut term = body;
    for _ in 0..binders {
        term = lam(term);
    }
    term
}

fn round_trip(term: &LambdaTerm) {
    let text = term.to_source().unwrap();
    assert_eq!(&LambdaTerm::from_str(&text).unwrap(), term);
}

#[test]
fn identity_is_written_with_a_name() {
    assert_eq!(lam(var(0)).to_source().unwrap(), "(λa.a)");
}

#[test]
fn binders_are_named_by_their_depth() {
    assert_eq!(lam(lam(var(1))).to_source().unwrap(), "(λa.(λb.a))");
    assert_eq!(lam(lam(var(0))).to_source().unwrap(), "(λa.(λb.b))");
    assert_eq!(app(lam(var(0)), lam(var(0))).to_source().unwrap(), "((λa.a) (λa.a))");
}

#[test]
fn annotations_are_written_in_the_grammar() {
    assert_eq!(typed(base("A"), var(0)).to_source().unwrap(), "(λa:A.a)");
    assert_eq!(
        typed(function(base("A"), base("B")), var(0)).to_source().unwrap(),
        "(λa:(A)→B.a)"
    );
    assert_eq!(
        typed(function(function(base("A"), base("B")), base("C")), var(0)).to_source().unwrap(),
        "(λa:((A)→B)→C.a)"
    );
}

#[test]
fn applications_are_written_two_by_two() {
    let term = lam(lam(lam(app(app(var(2), var(1)), var(0)))));
    assert_eq!(term.to_source().unwrap(), "(λa.(λb.(λc.((a b) c))))");
}

#[test]
fn names_go_on_after_the_alphabet() {
    assert!(nested(26, var(0)).to_source().unwrap().contains("(λz.z)"));
    assert!(nested(27, var(0)).to_source().unwrap().contains("(λaa.aa)"));
    assert!(nested(28, var(0)).to_source().unwrap().contains("(λab.ab)"));
    assert!(nested(52, var(0)).to_source().unwrap().contains("(λaz.az)"));
    assert!(nested(53, var(0)).to_source().unwrap().contains("(λba.ba)"));
    assert!(nested(702, var(0)).to_source().unwrap().contains("(λzz.zz)"));
    assert!(nested(703, var(0)).to_source().unwrap().contains("(λaaa.aaa)"));
    assert!(nested(703, var(702)).to_source().unwrap().contains("(λaaa.a)"));
}

#[test]
fn open_terms_are_not_written() {
    assert!(var(0).to_source().is_none());
    assert!(lam(var(1)).to_source().is_none());
    assert!(app(lam(var(0)), var(0)).to_source().is_none());
}

#[test]
fn types_without_a_proper_name_are_not_written() {
    assert!(typed(base(""), var(0)).to_source().is_none());
    assert!(typed(base("A1"), var(0)).to_source().is_none());
    assert!(typed(base("a b"), var(0)).to_source().is_none());
    assert!(typed(function(base("A"), base("λ")), var(0)).to_source().is_none());
    assert!(!typed(base("é"), var(0)).is_well_named());
    assert!(typed(base("Az"), var(0)).is_well_named());
    assert!(function(base("A"), base("B")).is_well_named());
    assert!(!function(base("A"), base("")).is_well_named());
}

#[test]
fn what_is_written_parses_to_the_same_term() {
    round_trip(&lam(var(0)));
    round_trip(&lam(lam(var(1))));
    round_trip(&app(lam(app(var(0), var(0))), lam(app(var(0), var(0)))));
    round_trip(&typed(function(function(base("A"), base("B")), base("C")), lam(app(var(1), var(0)))));
    round_trip(&lam(lam(lam(app(app(var(2), var(0)), app(var(1), var(0)))))));
    round_trip(&nested(30, app(var(29), app(var(3), var(0)))));
    round_trip(&nested(800, app(var(799), var(97))));
}

#[test]
fn what_is_parsed_can_be_written_and_parsed_again() {
    for text in ["(λx.x)", "(\\f:(A)→B.(λx:A.(f x)))", "((λx.(x x)) (λx.(x x)))", "(λf.(λa.(λb.(f a b))))"] {
        let term = LambdaTerm::from_str(text).unwrap();
        assert!(term.is_closed());
        assert!(term.is_well_named());
        round_trip(&term);
    }
}

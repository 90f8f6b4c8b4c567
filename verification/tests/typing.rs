use kombi::{LambdaTerm, Type, TypeError};

fn base(name: &str) -> Type {
    Type::BaseType(name.to_string())
}

fn function(argument: Type, result: Type) -> Type {
    Type::FunctionType(Box::new(argument), Box::new(result))
}

fn var(idx: u64) -> LambdaTerm {
    LambdaTerm::Variable { idx }
}

fn lam(argument_type: Type, body: LambdaTerm) -> LambdaTerm {
    LambdaTerm::Abstraction { argument_type: Some(argument_type), body: Box::new(body) }
}

fn app(function: LambdaTerm, argument: LambdaTerm) -> LambdaTerm {
    LambdaTerm::Application { function: Box::new(function), argument: Box::new(argument) }
}

fn parse(text: &str) -> LambdaTerm {
    LambdaTerm::from_str(text).unwrap()
}

#[test]
fn identity_is_a_function_on_its_annotation() {
    assert_eq!(parse("(λx:A.x)").get_type().unwrap(), function(base("A"), base("A")));
}

#[test]
fn variable_takes_its_type_from_the_end_of_the_context() {
    let ctx = vec![base("A"), base("B"), base("C")];
    assert_eq!(var(0).get_type_in_context(ctx.clone()).unwrap(), base("C"));
    assert_eq!(var(1).get_type_in_context(ctx.clone()).unwrap(), base("B"));
    assert_eq!(var(2).get_type_in_context(ctx).unwrap(), base("A"));
}

#[test]
fn application_has_the_result_type_of_its_function() {
    let term = parse("(λf:(A)→B.(λx:A.(f x)))");
    let expected =
        function(function(base("A"), base("B")), function(base("A"), base("B")));
    assert_eq!(term.get_type().unwrap(), expected);
}

#[test]
fn argument_of_another_base_type_is_rejected() {
    let term = parse("(λy:B.((λx:A.x) y))");
    match term.get_type() {
        Err(TypeError::InvalidApplication { function: f, function_type, argument, argument_type }) => {
            assert_eq!(f, lam(base("A"), var(0)));
            assert_eq!(function_type, function(base("A"), base("A")));
            assert_eq!(argument, var(0));
            assert_eq!(argument_type, base("B"));
        },
        other => panic!("{:?}", other),
    }
}

#[test]
fn type_error_reads_as_a_sentence() {
    let error = parse("(λy:B.((λx:A.x) y))").get_type().unwrap_err();
    assert_eq!(error.to_string(), "attempted to apply term (λ:A 0):A→A to term (0):B");
}

#[test]
fn applying_what_is_no_function_is_rejected() {
    match parse("(λx:A.(x x))").get_type() {
        Err(TypeError::InvalidApplication { function: f, function_type, argument, argument_type }) => {
            assert_eq!(f, var(0));
            assert_eq!(function_type, base("A"));
            assert_eq!(argument, var(0));
            assert_eq!(argument_type, base("A"));
        },
        other => panic!("{:?}", other),
    }
}

#[test]
fn function_types_are_compared_by_structure() {
    let fits = parse("(λg:((A)→B)→C.(λf:(A)→B.(g f)))");
    assert_eq!(
        fits.get_type().unwrap(),
        function(
            function(function(base("A"), base("B")), base("C")),
            function(function(base("A"), base("B")), base("C")),
        )
    );
    let differs = parse("(λg:((A)→B)→C.(λf:(A)→A.(g f)))");
    match differs.get_type() {
        Err(TypeError::InvalidApplication { function_type, argument_type, .. }) => {
            assert_eq!(function_type, function(function(base("A"), base("B")), base("C")));
            assert_eq!(argument_type, function(base("A"), base("A")));
        },
        other => panic!("{:?}", other),
    }
}

#[test]
fn the_error_in_the_function_comes_before_the_one_in_the_argument() {
    let bad_function = app(lam(base("A"), var(0)), lam(base("B"), var(0)));
    let bad_argument = app(lam(base("C"), var(0)), lam(base("D"), var(0)));
    let term = app(bad_function.clone(), bad_argument);
    match term.get_type() {
        Err(TypeError::InvalidApplication { function: f, function_type, argument, argument_type }) => {
            assert_eq!(f, lam(base("A"), var(0)));
            assert_eq!(function_type, function(base("A"), base("A")));
            assert_eq!(argument, lam(base("B"), var(0)));
            assert_eq!(argument_type, function(base("B"), base("B")));
        },
        other => panic!("{:?}", other),
    }
}

#[test]
fn the_error_in_the_argument_comes_before_the_application_itself() {
    let bad_argument = app(lam(base("C"), var(0)), lam(base("D"), var(0)));
    let term = app(lam(base("A"), var(0)), bad_argument);
    match term.get_type() {
        Err(TypeError::InvalidApplication { function: f, argument_type, .. }) => {
            assert_eq!(f, lam(base("C"), var(0)));
            assert_eq!(argument_type, function(base("D"), base("D")));
        },
        other => panic!("{:?}", other),
    }
}

#[test]
fn function_and_argument_are_checked_under_the_same_context() {
    let term = parse("(λa:A.((λx:A.(λy:B.x)) a))");
    assert_eq!(
        term.get_type().unwrap(),
        function(base("A"), function(base("B"), base("A")))
    );
}

#[test]
fn reduction_keeps_the_type() {
    let term = parse("((λf:(A)→A.f) (λy:A.y))");
    let before = term.get_type().unwrap();
    let reduced = term.beta_reduce();
    assert_eq!(reduced, lam(base("A"), var(0)));
    assert_eq!(reduced.get_type().unwrap(), before);
    assert_eq!(before, function(base("A"), base("A")));
}

#[test]
fn reduction_keeps_the_type_through_the_constant_function() {
    let term = parse("(((λx:(A)→A.(λy:(B)→B.x)) (λa:A.a)) (λb:B.b))");
    let before = term.get_type().unwrap();
    let reduced = term.beta_reduce();
    assert_eq!(reduced.get_type().unwrap(), before);
}

#[test]
fn closed_terms_are_told_from_open_ones() {
    assert!(parse("(λx.(λy.(x y)))").is_closed());
    assert!(!var(0).is_closed());
    assert!(!LambdaTerm::Abstraction { argument_type: None, body: Box::new(var(1)) }.is_closed());
    assert!(var(4).closed_at(5));
    assert!(!var(5).closed_at(5));
    assert!(var(u64::MAX - 1).closed_at(u64::MAX));
    assert!(!var(u64::MAX).closed_at(u64::MAX));
    assert!(lam(base("A"), var(u64::MAX)).closed_at(u64::MAX));
}

#[test]
fn annotated_terms_are_told_from_plain_ones() {
    assert!(parse("(λx:A.(λy:B.x))").is_annotated());
    assert!(!parse("(λx:A.(λy.x))").is_annotated());
    assert!(var(0).is_annotated());
}

#[test]
fn types_are_equal_by_structure() {
    assert_eq!(function(base("A"), base("B")), function(base("A"), base("B")));
    assert_ne!(function(base("A"), base("B")), function(base("B"), base("A")));
    assert_ne!(base("A"), base("B"));
    assert_ne!(base("A"), function(base("A"), base("A")));
}

use kombi::{LambdaTerm, ParseError, Span, Type};

fn var(idx: u64) -> LambdaTerm {
    LambdaTerm::Variable { idx }
}

fn lam(body: LambdaTerm) -> LambdaTerm {
    LambdaTerm::Abstraction { argument_type: None, body: Box::new(body) }
}

fn typed(name: &str, body: LambdaTerm) -> LambdaTerm {
    LambdaTerm::Abstraction {
        argument_type: Some(Type::BaseType(name.to_string())),
        body: Box::new(body),
    }
}

fn app(function: LambdaTerm, argument: LambdaTerm) -> LambdaTerm {
    LambdaTerm::Application { function: Box::new(function), argument: Box::new(argument) }
}

#[test]
fn identity_parses_to_index_zero() {
    let term = LambdaTerm::from_str("(λx.x)").unwrap();
    assert_eq!(term, lam(var(0)));
    assert_eq!(term.to_string(), "λ 0");
}

#[test]
fn backslash_is_a_lambda() {
    assert_eq!(LambdaTerm::from_str("(\\x.x)").unwrap(), lam(var(0)));
}

#[test]
fn annotated_identity() {
    let term = LambdaTerm::from_str("(λx:A.x)").unwrap();
    assert_eq!(term, typed("A", var(0)));
    assert_eq!(term.to_string(), "λ:A 0");
}

#[test]
fn outer_binder_has_index_one() {
    assert_eq!(LambdaTerm::from_str("(λx.(λy.x))").unwrap(), lam(lam(var(1))));
}

#[test]
fn inner_binder_shadows_outer() {
    assert_eq!(LambdaTerm::from_str("(λx.(λx.x))").unwrap(), lam(lam(var(0))));
}

#[test]
fn application_of_three_nests_left() {
    let flat = LambdaTerm::from_str("(λf.(λa.(λb.(f a b))))").unwrap();
    let nested = LambdaTerm::from_str("(λf.(λa.(λb.((f a) b))))").unwrap();
    assert_eq!(flat, nested);
    assert_eq!(flat, lam(lam(lam(app(app(var(2), var(1)), var(0))))));
}

#[test]
fn whitespace_is_free_between_tokens() {
    let term = LambdaTerm::from_str("  ( λ x : A . ( x\n\tx ) )\n").unwrap();
    assert_eq!(term, typed("A", app(var(0), var(0))));
}

#[test]
fn missing_parenthesis_is_a_syntax_error() {
    match LambdaTerm::from_str("(λx.x") {
        Err(ParseError::SyntaxError { span }) => assert_eq!(span, Span { start: 5, end: 5 }),
        other => panic!("{:?}", other),
    }
}

#[test]
fn unbound_variable_is_reported_with_its_span() {
    match LambdaTerm::from_str("(λx.y)") {
        Err(ParseError::UnboundVariableError { identifier, span }) => {
            assert_eq!(identifier, "y");
            assert_eq!(span, Span { start: 4, end: 5 });
        },
        other => panic!("{:?}", other),
    }
}

#[test]
fn binder_does_not_leak_into_sibling() {
    match LambdaTerm::from_str("((λx.x) x)") {
        Err(ParseError::UnboundVariableError { identifier, span }) => {
            assert_eq!(identifier, "x");
            assert_eq!(span, Span { start: 8, end: 9 });
        },
        other => panic!("{:?}", other),
    }
}

#[test]
fn index_notation_is_not_the_grammar() {
    let text = LambdaTerm::from_str("(λx.x)").unwrap().to_string();
    assert_eq!(text, "λ 0");
    match LambdaTerm::from_str(&text) {
        Err(ParseError::SyntaxError { span }) => assert_eq!(span, Span { start: 0, end: 1 }),
        other => panic!("{:?}", other),
    }
}

#[test]
fn identity_is_written_and_parsed_back() {
    let term = LambdaTerm::from_str("(λx.x)").unwrap();
    let written = term.to_source().unwrap();
    assert_eq!(written, "(λa.a)");
    assert_eq!(LambdaTerm::from_str(&written).unwrap(), term);
}

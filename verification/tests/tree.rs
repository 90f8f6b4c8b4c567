use kombi::parse::lookup;
use kombi::{KombiParser, LambdaTerm, Pair, ParseError, Rule, Span, Type};

fn leaf(rule: Rule, text: &str, start: usize) -> Pair {
    Pair {
        rule,
        text: text.to_string(),
        span: Span { start, end: start + text.chars().count() },
        inner: Vec::new(),
    }
}

fn inner(rule: Rule, start: usize, end: usize, inner: Vec<Pair>) -> Pair {
    Pair { rule, text: String::new(), span: Span { start, end }, inner }
}

fn var(idx: u64) -> LambdaTerm {
    LambdaTerm::Variable { idx }
}

fn app(function: LambdaTerm, argument: LambdaTerm) -> LambdaTerm {
    LambdaTerm::Application { function: Box::new(function), argument: Box::new(argument) }
}

fn names(list: &[&str]) -> Vec<String> {
    list.iter().map(|name| name.to_string()).collect()
}

fn syntax_error_at(text: &str) -> Span {
    match LambdaTerm::from_str(text) {
        Err(ParseError::SyntaxError { span }) => span,
        other => panic!("{:?}", other),
    }
}

#[test]
fn application_node_holds_its_terms_in_order() {
    let pair = KombiParser::parse("(f x)").unwrap();
    assert_eq!(pair.rule, Rule::Application);
    assert_eq!(pair.span, Span { start: 0, end: 5 });
    assert_eq!(pair.text, "");
    assert_eq!(pair.inner.len(), 2);
    assert_eq!(pair.inner[0].rule, Rule::Variable);
    assert_eq!(pair.inner[0].text, "f");
    assert_eq!(pair.inner[0].span, Span { start: 1, end: 2 });
    assert_eq!(pair.inner[1].rule, Rule::Variable);
    assert_eq!(pair.inner[1].text, "x");
    assert_eq!(pair.inner[1].span, Span { start: 3, end: 4 });
}

#[test]
fn application_node_holds_all_its_terms() {
    let pair = KombiParser::parse("(f (g x) y z)").unwrap();
    assert_eq!(pair.inner.len(), 4);
    assert_eq!(pair.inner[1].rule, Rule::Application);
    assert_eq!(pair.inner[1].span, Span { start: 3, end: 8 });
    assert_eq!(pair.inner[3].text, "z");
}

#[test]
fn abstraction_node_holds_variable_type_and_body() {
    let pair = KombiParser::parse("(λx:A.x)").unwrap();
    assert_eq!(pair.rule, Rule::Abstraction);
    assert_eq!(pair.span, Span { start: 0, end: 8 });
    assert_eq!(pair.inner.len(), 3);
    assert_eq!(pair.inner[0].rule, Rule::Variable);
    assert_eq!(pair.inner[0].text, "x");
    assert_eq!(pair.inner[0].span, Span { start: 2, end: 3 });
    assert_eq!(pair.inner[1].rule, Rule::BaseType);
    assert_eq!(pair.inner[1].text, "A");
    assert_eq!(pair.inner[1].span, Span { start: 4, end: 5 });
    assert_eq!(pair.inner[2].rule, Rule::Variable);
    assert_eq!(pair.inner[2].span, Span { start: 6, end: 7 });
}

#[test]
fn abstraction_node_without_annotation_holds_variable_and_body() {
    let pair = KombiParser::parse("(λ long . long)").unwrap();
    assert_eq!(pair.inner.len(), 2);
    assert_eq!(pair.inner[0].text, "long");
    assert_eq!(pair.inner[0].span, Span { start: 3, end: 7 });
    assert_eq!(pair.inner[1].text, "long");
    assert_eq!(pair.span, Span { start: 0, end: 15 });
}

#[test]
fn function_type_node_holds_argument_and_result() {
    let pair = KombiParser::parse("(λf:(A)→(B)→C.f)").unwrap();
    let annotation = &pair.inner[1];
    assert_eq!(annotation.rule, Rule::FunctionType);
    assert_eq!(annotation.span, Span { start: 4, end: 13 });
    assert_eq!(annotation.inner.len(), 2);
    assert_eq!(annotation.inner[0].text, "A");
    assert_eq!(annotation.inner[1].rule, Rule::FunctionType);
    assert_eq!(annotation.inner[1].span, Span { start: 8, end: 13 });
    let expected = Type::FunctionType(
        Box::new(Type::BaseType("A".to_string())),
        Box::new(Type::FunctionType(
            Box::new(Type::BaseType("B".to_string())),
            Box::new(Type::BaseType("C".to_string())),
        )),
    );
    assert_eq!(Type::from_pair(annotation), expected);
}

#[test]
fn type_is_built_from_its_node() {
    let node = inner(
        Rule::FunctionType,
        0,
        5,
        vec![leaf(Rule::BaseType, "A", 1), leaf(Rule::BaseType, "B", 4)],
    );
    assert_eq!(
        Type::from_pair(&node),
        Type::FunctionType(
            Box::new(Type::BaseType("A".to_string())),
            Box::new(Type::BaseType("B".to_string()))
        )
    );
    assert_eq!(Type::from_pair(&leaf(Rule::BaseType, "Nat", 0)), Type::BaseType("Nat".to_string()));
}

#[test]
fn the_tree_is_parsed_whatever_its_variables() {
    assert!(KombiParser::parse("(λx.y)").is_ok());
    assert!(KombiParser::parse("free").is_ok());
}

#[test]
fn lookup_counts_from_the_innermost_binder() {
    let ctx = names(&["x", "y", "z"]);
    assert_eq!(lookup(&ctx, &"z".to_string()), Some(0));
    assert_eq!(lookup(&ctx, &"y".to_string()), Some(1));
    assert_eq!(lookup(&ctx, &"x".to_string()), Some(2));
    assert_eq!(lookup(&ctx, &"w".to_string()), None);
    assert_eq!(lookup(&Vec::new(), &"x".to_string()), None);
}

#[test]
fn lookup_finds_the_innermost_of_equal_names() {
    let ctx = names(&["x", "y", "x", "z"]);
    assert_eq!(lookup(&ctx, &"x".to_string()), Some(1));
}

#[test]
fn variable_node_becomes_its_index() {
    let ctx = names(&["f", "a", "b"]);
    assert_eq!(LambdaTerm::from_pair(&leaf(Rule::Variable, "f", 0), &ctx).unwrap(), var(2));
    assert_eq!(LambdaTerm::from_pair(&leaf(Rule::Variable, "b", 0), &ctx).unwrap(), var(0));
}

#[test]
fn application_node_of_three_is_nested_to_the_left() {
    let ctx = names(&["f", "a", "b"]);
    let flat = inner(
        Rule::Application,
        0,
        7,
        vec![
            leaf(Rule::Variable, "f", 1),
            leaf(Rule::Variable, "a", 3),
            leaf(Rule::Variable, "b", 5),
        ],
    );
    let nested = inner(
        Rule::Application,
        0,
        9,
        vec![
            inner(
                Rule::Application,
                1,
                6,
                vec![leaf(Rule::Variable, "f", 2), leaf(Rule::Variable, "a", 4)],
            ),
            leaf(Rule::Variable, "b", 7),
        ],
    );
    let expected = app(app(var(2), var(1)), var(0));
    assert_eq!(LambdaTerm::from_pair(&flat, &ctx).unwrap(), expected);
    assert_eq!(LambdaTerm::from_pair(&nested, &ctx).unwrap(), expected);
}

#[test]
fn application_node_of_five_is_nested_to_the_left() {
    let term = LambdaTerm::from_str("(λa.(λb.(a b a b a)))").unwrap();
    let expected = app(app(app(app(var(1), var(0)), var(1)), var(0)), var(1));
    let body = match term {
        LambdaTerm::Abstraction { body, .. } => match *body {
            LambdaTerm::Abstraction { body, .. } => *body,
            other => panic!("{:?}", other),
        },
        other => panic!("{:?}", other),
    };
    assert_eq!(body, expected);
}

#[test]
fn abstraction_node_binds_its_variable_innermost() {
    let node = inner(
        Rule::Abstraction,
        0,
        9,
        vec![
            leaf(Rule::Variable, "x", 2),
            inner(
                Rule::Application,
                4,
                8,
                vec![leaf(Rule::Variable, "x", 5), leaf(Rule::Variable, "y", 7)],
            ),
        ],
    );
    let ctx = names(&["x", "y"]);
    let expected = LambdaTerm::Abstraction {
        argument_type: None,
        body: Box::new(app(var(0), var(1))),
    };
    assert_eq!(LambdaTerm::from_pair(&node, &ctx).unwrap(), expected);
    assert_eq!(ctx, names(&["x", "y"]));
}

#[test]
fn the_leftmost_unbound_variable_is_reported() {
    match LambdaTerm::from_str("(λx.(x (first second) third))") {
        Err(ParseError::UnboundVariableError { identifier, span }) => {
            assert_eq!(identifier, "first");
            assert_eq!(span, Span { start: 8, end: 13 });
        },
        other => panic!("{:?}", other),
    }
}

#[test]
fn a_syntax_error_comes_before_an_unbound_variable() {
    assert_eq!(syntax_error_at("(x"), Span { start: 2, end: 2 });
    assert_eq!(syntax_error_at("(free (λx.x)"), Span { start: 12, end: 12 });
}

#[test]
fn empty_text_is_no_term() {
    assert_eq!(syntax_error_at(""), Span { start: 0, end: 0 });
    assert_eq!(syntax_error_at("  \n"), Span { start: 3, end: 3 });
}

#[test]
fn an_application_needs_two_terms() {
    assert_eq!(syntax_error_at("()"), Span { start: 1, end: 2 });
    assert_eq!(syntax_error_at("((λx.x))"), Span { start: 7, end: 8 });
}

#[test]
fn an_abstraction_needs_its_head() {
    assert_eq!(syntax_error_at("(λx)"), Span { start: 3, end: 4 });
    assert_eq!(syntax_error_at("(λ.x)"), Span { start: 2, end: 3 });
    assert_eq!(syntax_error_at("(λx.)"), Span { start: 4, end: 5 });
    assert_eq!(syntax_error_at("(λx:.x)"), Span { start: 4, end: 5 });
    assert_eq!(syntax_error_at("(λx:A x)"), Span { start: 6, end: 7 });
    assert_eq!(syntax_error_at("(λx.x x)"), Span { start: 6, end: 7 });
}

#[test]
fn the_dot_of_an_abstraction_may_be_left_out() {
    let plain = LambdaTerm::from_str("(λx.(x x))").unwrap();
    assert_eq!(LambdaTerm::from_str("(λx (x x))").unwrap(), plain);
    assert_eq!(LambdaTerm::from_str("(λx(x x))").unwrap(), plain);
    assert_eq!(
        LambdaTerm::from_str("(λx x)").unwrap(),
        LambdaTerm::Abstraction { argument_type: None, body: Box::new(var(0)) }
    );
    assert_eq!(syntax_error_at("(λx y z)"), Span { start: 6, end: 7 });
}

#[test]
fn a_function_type_needs_parentheses_and_arrow() {
    assert_eq!(syntax_error_at("(λx:A→B.x)"), Span { start: 5, end: 6 });
    assert_eq!(syntax_error_at("(λx:(A).x)"), Span { start: 7, end: 8 });
    assert_eq!(syntax_error_at("(λx:(A→B.x)"), Span { start: 6, end: 7 });
    assert_eq!(syntax_error_at("(λx:(A)→.x)"), Span { start: 8, end: 9 });
}

#[test]
fn nothing_may_follow_the_term() {
    assert_eq!(syntax_error_at("(λx.x) (λy.y)"), Span { start: 7, end: 8 });
    assert_eq!(syntax_error_at("(λx.x))"), Span { start: 6, end: 7 });
}

#[test]
fn identifiers_are_made_of_letters_only() {
    assert_eq!(syntax_error_at("(λx1.x1)"), Span { start: 3, end: 4 });
    assert_eq!(syntax_error_at("(λx_y.x_y)"), Span { start: 3, end: 4 });
    assert_eq!(syntax_error_at("(λé.é)"), Span { start: 2, end: 3 });
    assert!(LambdaTerm::from_str("(λLongName.LongName)").is_ok());
}

use kombi::{LambdaTerm, Type};

fn base(name: &str) -> Type {
    Type::BaseType(name.to_string())
}

fn function(argument: Type, result: Type) -> Type {
    Type::FunctionType(Box::new(argument), Box::new(result))
}

fn var(idx: u64) -> LambdaTerm {
    LambdaTerm::Variable { idx }
}

fn lam(body: LambdaTerm) -> LambdaTerm {
    LambdaTerm::Abstraction { argument_type: None, body: Box::new(body) }
}

fn typed(argument_type: Type, body: LambdaTerm) -> LambdaTerm {
    LambdaTerm::Abstraction { argument_type: Some(argument_type), body: Box::new(body) }
}

fn app(function: LambdaTerm, argument: LambdaTerm) -> LambdaTerm {
    LambdaTerm::Application { function: Box::new(function), argument: Box::new(argument) }
}

#[test]
fn base_type_is_its_name() {
    assert_eq!(base("Nat").to_string(), "Nat");
}

#[test]
fn function_type_associates_to_the_right() {
    assert_eq!(function(base("A"), base("B")).to_string(), "A→B");
    assert_eq!(function(base("A"), function(base("B"), base("C"))).to_string(), "A→B→C");
}

#[test]
fn function_type_as_argument_stands_in_parentheses() {
    assert_eq!(function(function(base("A"), base("B")), base("C")).to_string(), "(A→B)→C");
    assert_eq!(
        function(function(function(base("A"), base("B")), base("C")), base("D")).to_string(),
        "((A→B)→C)→D"
    );
}

#[test]
fn variables_are_written_as_decimal_indices() {
    assert_eq!(var(0).to_string(), "0");
    assert_eq!(var(9).to_string(), "9");
    assert_eq!(var(10).to_string(), "10");
    assert_eq!(var(1203).to_string(), "1203");
    assert_eq!(var(u64::MAX).to_string(), "18446744073709551615");
}

#[test]
fn abstraction_shows_its_annotation() {
    assert_eq!(lam(var(0)).to_string(), "λ 0");
    assert_eq!(typed(base("A"), var(0)).to_string(), "λ:A 0");
    assert_eq!(typed(function(base("A"), base("B")), lam(var(1))).to_string(), "λ:A→B λ 1");
}

#[test]
fn application_of_variables_needs_no_parentheses() {
    assert_eq!(app(var(0), var(1)).to_string(), "0 1");
    assert_eq!(app(app(var(0), var(1)), var(2)).to_string(), "0 1 2");
}

#[test]
fn abstraction_in_function_place_stands_in_parentheses() {
    assert_eq!(app(lam(var(0)), var(1)).to_string(), "(λ 0) 1");
    assert_eq!(app(lam(var(0)), app(var(0), var(1))).to_string(), "(λ 0) 0 1");
}

#[test]
fn application_in_argument_place_stands_in_parentheses() {
    assert_eq!(app(var(0), app(var(1), var(2))).to_string(), "0 (1 2)");
    assert_eq!(app(var(0), lam(var(0))).to_string(), "0 λ 0");
}

use delta::diagnostics::Diagnostics;
use delta::errors::Error;
use delta::lexer::lex;
use delta::parser::parse;
use delta::program::Context;
use delta::typer::{try_type_check, type_check};

fn check(source: &str) -> Vec<Error> {
    let exprs = match parse(lex(source)) {
        Ok(exprs) => exprs,
        Err(d) => panic!("parse errors: {:?}", d.get_errors()),
    };
    let context: Context<fn(i32) -> i32, i32> = Context::new();
    let mut diagnostics = Diagnostics::new();
    type_check(&exprs, &context, &mut diagnostics);
    diagnostics.get_errors()
}

#[test]
fn well_typed_arithmetic_has_no_errors() {
    assert!(check("1 + 2 * 3").is_empty());
    assert!(check("x = 2\nx + 1").is_empty());
    assert!(check("1.5 +. 2.5 <. 4.0 and true").is_empty());
}

#[test]
fn adding_a_boolean_to_an_integer_is_a_mismatch() {
    let errors = check("1 + true");
    assert_eq!(errors.len(), 1);
    assert_eq!(errors[0].to_string(), "Line 1.5: Expected int but got bool.");
}

#[test]
fn unknown_names_are_reported() {
    let errors = check("y + 1");
    assert_eq!(errors.len(), 1);
    match &errors[0] {
        Error::NameNotFound { token } => assert_eq!(token.lexeme, "y"),
        other => panic!("unexpected {:?}", other),
    }
}

#[test]
fn unknown_functions_are_reported() {
    let errors = check("3 | double");
    assert_eq!(errors.len(), 1);
    match &errors[0] {
        Error::FunctionNotFound { name } => assert_eq!(name, "double"),
        other => panic!("unexpected {:?}", other),
    }
}

#[test]
fn functions_are_typed_by_their_calls() {
    assert!(check("double = \\a\n\ta * 2\n3 | double").is_empty());
    assert_eq!(check("double = \\a\n\ta * 2\ntrue | double").len(), 1);
}

#[test]
fn try_type_check_reports_as_type_check_does() {
    let exprs = match parse(lex("1 + true")) {
        Ok(exprs) => exprs,
        Err(d) => panic!("parse errors: {:?}", d.get_errors()),
    };
    let context: Context<fn(i32) -> i32, i32> = Context::new();
    let mut diagnostics = Diagnostics::new();
    assert!(try_type_check(&exprs, &context, &mut diagnostics));
    let errors = diagnostics.get_errors();
    assert_eq!(errors.len(), 1);
    assert_eq!(errors[0].to_string(), "Line 1.5: Expected int but got bool.");
}

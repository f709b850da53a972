use delta::environment::{ComponentMetadata, Environment};
use delta::expressions::PropertyDefinition;
use delta::program::Context;
use delta::tokens::{Span, Token, TokenKind};
use delta::unification::Type;

fn token(lexeme: &str) -> Token {
    Token { kind: TokenKind::Identifier, position: Span { line: 1, column: 1 }, lexeme: lexeme.to_string() }
}

#[test]
fn functions_get_indices_in_order() {
    let mut context: Context<fn(i32) -> i32, i32> = Context::new();
    context.add_function("double".to_string(), |x| x * 2);
    context.add_function("negate".to_string(), |x| -x);
    assert!(context.has_function(&"double".to_string()));
    assert!(!context.has_function(&"triple".to_string()));
    assert_eq!(context.get_index(&"double".to_string()), 0);
    assert_eq!(context.get_index(&"negate".to_string()), 1);
    context.add_function("double".to_string(), |x| x + x);
    assert_eq!(context.get_index(&"double".to_string()), 2);
    let mut names = context.get_function_names();
    names.sort();
    assert_eq!(names, vec!["double".to_string(), "negate".to_string()]);
    let negate = context.lookup_function(&"negate".to_string()).unwrap();
    assert_eq!(negate(5), -5);
    assert!(context.lookup_function(&"none".to_string()).is_none());
}

#[test]
fn values_are_replaced_by_name() {
    let mut context: Context<fn(i32) -> i32, &str> = Context::default();
    assert!(!context.has_value(&"width".to_string()));
    context.add_value("width".to_string(), "10");
    context.add_value("width".to_string(), "20");
    context.add_value("height".to_string(), "5");
    assert_eq!(context.lookup_value(&"width".to_string()), Some(&"20"));
    let mut names = context.get_value_names();
    names.sort();
    assert_eq!(names, vec!["height".to_string(), "width".to_string()]);
}

#[test]
fn calls_offered_functions_and_values() {
    let mut context: Context<Box<dyn Fn(&Vec<i64>) -> i64>, Box<dyn Fn() -> i64>> = Context::new();
    context.add_function("sum".to_string(), Box::new(|stack: &Vec<i64>| stack.iter().sum()));
    context.add_value("answer".to_string(), Box::new(|| 42));
    assert_eq!(context.call_function(&"sum".to_string(), &vec![1, 2, 3], -1), 6);
    assert_eq!(context.call_function(&"product".to_string(), &vec![1, 2, 3], -1), -1);
    assert_eq!(context.get_value(&"answer".to_string(), 0), 42);
    assert_eq!(context.get_value(&"question".to_string(), 0), 0);
}

#[test]
fn environment_finds_property_definitions() {
    let position = ComponentMetadata {
        token: token("Position"),
        id: 0,
        properties: vec![
            PropertyDefinition { name: token("x"), type_: Type::Float },
            PropertyDefinition { name: token("label"), type_: Type::String },
        ],
    };
    let mut environment = Environment::default();
    environment.components.push(("Position".to_string(), position));
    let label = environment.get_property_definition("Position".to_string(), "label".to_string());
    assert_eq!(label.name.lexeme, "label");
    assert_eq!(label.type_, Type::String);
}

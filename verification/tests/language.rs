use std::collections::HashMap;

use delta::diagnostics::Diagnostics;
use delta::errors::{Error, ErrorDescription};
use delta::lexer::{lex, try_lex};
use delta::tokens::{Span, Token, TokenKind};
use delta::unification::{make_constructor, try_unify, unify, Type, UnificationType};

fn kinds(source: &str) -> Vec<TokenKind> {
    lex(source).into_iter().map(|t| t.kind).collect()
}

fn describe(source: &str) -> Vec<(TokenKind, usize, usize, String)> {
    lex(source)
        .into_iter()
        .map(|t| (t.kind, t.position.line, t.position.column, t.lexeme))
        .collect()
}

fn token(kind: TokenKind, line: usize, column: usize, lexeme: &str) -> Token {
    Token { kind, position: Span { line, column }, lexeme: lexeme.to_string() }
}

fn constructor(typ: Type) -> UnificationType {
    make_constructor(typ, token(TokenKind::Identifier, 1, 1, "t"))
}

#[test]
fn lexes_an_assignment() {
    assert_eq!(
        describe("x = 1\n"),
        vec![
            (TokenKind::Identifier, 1, 1, "x".to_string()),
            (TokenKind::Space, 1, 2, " ".to_string()),
            (TokenKind::Equal, 1, 3, "=".to_string()),
            (TokenKind::Space, 1, 4, " ".to_string()),
            (TokenKind::Integer, 1, 5, "1".to_string()),
            (TokenKind::NewLine, 1, 6, "\n".to_string()),
        ]
    );
}

#[test]
fn lexes_lines_and_columns() {
    let tokens = describe("a\nbb c");
    assert_eq!(tokens[2], (TokenKind::Identifier, 2, 1, "bb".to_string()));
    assert_eq!(tokens[4], (TokenKind::Identifier, 2, 4, "c".to_string()));
}

#[test]
fn lexes_operators() {
    assert_eq!(
        kinds("+-*/%\\|(){}<<=>>=!!===#x"),
        vec![
            TokenKind::Plus,
            TokenKind::Minus,
            TokenKind::Star,
            TokenKind::Slash,
            TokenKind::Percent,
            TokenKind::BackSlash,
            TokenKind::Pipe,
            TokenKind::LeftParen,
            TokenKind::RightParen,
            TokenKind::LeftBrace,
            TokenKind::RightBrace,
            TokenKind::LeftChevron,
            TokenKind::LeftChevronEqual,
            TokenKind::RightChevron,
            TokenKind::RightChevronEqual,
            TokenKind::Bang,
            TokenKind::BangEqual,
            TokenKind::EqualEqual,
            TokenKind::Comment,
        ]
    );
}

#[test]
fn lexes_keywords_numbers_and_whitespace() {
    assert_eq!(kinds("true false truth"), vec![
        TokenKind::True,
        TokenKind::Space,
        TokenKind::False,
        TokenKind::Space,
        TokenKind::Identifier,
    ]);
    assert_eq!(describe("3.14")[0], (TokenKind::Float, 1, 1, "3.14".to_string()));
    assert_eq!(describe("-2")[0], (TokenKind::Integer, 1, 1, "-2".to_string()));
    assert_eq!(kinds("1.x"), vec![TokenKind::Integer, TokenKind::SyntaxError("Unexpected token"), TokenKind::Identifier]);
    assert_eq!(describe("    x")[0], (TokenKind::Tab, 1, 1, "    ".to_string()));
    assert_eq!(kinds("\tx"), vec![TokenKind::Tab, TokenKind::Identifier]);
    assert_eq!(kinds("a  b")[1], TokenKind::SyntaxError("Unexpected whitespace"));
    assert_eq!(describe("# note\n")[0], (TokenKind::Comment, 1, 1, "# note".to_string()));
    assert_eq!(kinds("@"), vec![TokenKind::SyntaxError("Unexpected token")]);
}

#[test]
fn lexes_strings() {
    assert_eq!(describe("\"ab\""), vec![(TokenKind::Text, 1, 1, "ab".to_string())]);
    assert_eq!(describe("\"a\\nb\\t\\'\"")[0].3, "a\nb\t'");
    assert_eq!(
        describe("\"ab"),
        vec![(TokenKind::SyntaxError("Unterminated string"), 1, 1, "\"ab".to_string())]
    );
    assert_eq!(
        kinds("\"a\nb\"")[0],
        TokenKind::SyntaxError("String literal must be single line")
    );
}

#[test]
fn lexes_string_interpolation() {
    assert_eq!(
        describe("\"a{x}b\""),
        vec![
            (TokenKind::Text, 1, 1, "a".to_string()),
            (TokenKind::StringConcat, 1, 3, "{".to_string()),
            (TokenKind::Identifier, 1, 4, "x".to_string()),
            (TokenKind::StringConcat, 1, 5, "}".to_string()),
            (TokenKind::Text, 1, 6, "b".to_string()),
        ]
    );
}

#[test]
fn try_lex_reports_a_trailing_point() {
    assert!(try_lex("x = 1.").is_none());
    assert!(try_lex("1.5").is_some());
    assert_eq!(try_lex("y").unwrap()[0].lexeme, "y");
}

#[test]
fn unify_binds_a_variable() {
    let mut substitutions = HashMap::new();
    let mut diagnostics = Diagnostics::new();
    unify(&UnificationType::Variable(0), &constructor(Type::Integer), &mut substitutions, &mut diagnostics);
    assert!(!diagnostics.has_errors());
    assert_eq!(substitutions.len(), 1);
    assert_eq!(substitutions.get(&0).unwrap().to_string(), "int");
    unify(&UnificationType::Variable(1), &UnificationType::Variable(0), &mut substitutions, &mut diagnostics);
    assert_eq!(substitutions.get(&0).unwrap().to_string(), "int");
    assert_eq!(substitutions.get(&1).unwrap().to_string(), "int");
    assert_eq!(diagnostics.count(), 0);
}

#[test]
fn unify_reports_a_mismatch() {
    let mut substitutions = HashMap::new();
    let mut diagnostics = Diagnostics::new();
    let left = make_constructor(Type::Integer, token(TokenKind::Integer, 2, 5, "1"));
    let right = make_constructor(Type::Boolean, token(TokenKind::True, 3, 1, "true"));
    unify(&left, &right, &mut substitutions, &mut diagnostics);
    assert_eq!(diagnostics.count(), 1);
    let errors = diagnostics.get_errors();
    assert_eq!(errors[0].to_string(), "Line 2.5: Expected bool but got int.");
    assert_eq!(diagnostics.to_string(), "Line 2.5: Expected bool but got int.\n");
}

#[test]
fn unify_goes_through_arguments_and_bindings() {
    let mut substitutions = HashMap::new();
    let mut diagnostics = Diagnostics::new();
    let function = |args: Vec<UnificationType>| UnificationType::Constructor {
        typ: Type::Function,
        generics: args,
        token: token(TokenKind::BackSlash, 1, 1, "\\"),
    };
    let left = function(vec![UnificationType::Variable(0), constructor(Type::String)]);
    let right = function(vec![constructor(Type::Float), UnificationType::Variable(1)]);
    unify(&left, &right, &mut substitutions, &mut diagnostics);
    assert_eq!(diagnostics.count(), 0);
    assert_eq!(substitutions.get(&0).unwrap().to_string(), "float");
    assert_eq!(substitutions.get(&1).unwrap().to_string(), "string");
    assert_eq!(left.to_string(), "function(???#0) -> string");
    let tag = Type::Tag { name: "ok".to_string(), argument_count: 1 };
    assert!(tag.same_as(&tag.clone()));
    assert!(!tag.same_as(&Type::Tag { name: "ok".to_string(), argument_count: 0 }));
    assert_eq!(constructor(tag).to_string(), "tag :ok(1)");
    assert_eq!(constructor(Type::Tag { name: "none".to_string(), argument_count: 0 }).to_string(), "tag :none");
}

#[test]
fn lexemes_concatenate_to_the_source() {
    let source = "add = \\a b\n\ta + b # sum\nx = 1.5 | add 2";
    let joined: String = lex(source).into_iter().map(|t| t.lexeme).collect();
    assert_eq!(joined, source);
}

#[test]
fn unify_follows_chains_of_bindings() {
    let mut substitutions = HashMap::new();
    substitutions.insert(1, UnificationType::Variable(2));
    substitutions.insert(2, constructor(Type::Integer));
    let mut diagnostics = Diagnostics::new();
    unify(&UnificationType::Variable(1), &constructor(Type::Boolean), &mut substitutions, &mut diagnostics);
    assert_eq!(diagnostics.count(), 1);
    assert_eq!(diagnostics.get_errors()[0].to_string(), "Line 1.1: Expected int but got bool.");
    assert_eq!(substitutions.len(), 2);
}

#[test]
fn unified_types_stay_unified() {
    let mut substitutions = HashMap::new();
    let mut diagnostics = Diagnostics::new();
    let function = |args: Vec<UnificationType>| UnificationType::Constructor {
        typ: Type::Function,
        generics: args,
        token: token(TokenKind::BackSlash, 1, 1, "\\"),
    };
    let left = function(vec![UnificationType::Variable(0), constructor(Type::String)]);
    let right = function(vec![constructor(Type::Float), UnificationType::Variable(1)]);
    unify(&left, &right, &mut substitutions, &mut diagnostics);
    unify(&left, &right, &mut substitutions, &mut diagnostics);
    unify(&right, &left, &mut substitutions, &mut diagnostics);
    assert_eq!(diagnostics.count(), 0);
    unify(&UnificationType::Variable(0), &constructor(Type::Integer), &mut substitutions, &mut diagnostics);
    assert_eq!(diagnostics.to_string(), "Line 1.1: Expected float but got int.\n");
}

#[test]
fn error_messages() {
    let t = token(TokenKind::Identifier, 4, 2, "foo");
    assert_eq!(Error::ParseErr { message: "oops".to_string(), token: t.clone() }.to_string(), "Line 4.2: Parse error: oops");
    assert_eq!(Error::SyntaxError { description: "bad".to_string(), token: t.clone() }.to_string(), "Line 4.2: Syntax error: bad");
    assert_eq!(Error::NameNotFound { token: t.clone() }.to_string(), "Line 4.2: Name not found in scope: foo");
    assert_eq!(Error::FunctionNotFound { name: "f".to_string() }.to_string(), "Function not found: f");
    assert_eq!(
        Error::FunctionNameTooLong { token: t.clone() }.to_string(),
        "Function name too long; at Span { line: 4, column: 2 }"
    );
    assert_eq!(Error::FileErr("missing".to_string()).to_string(), "File error: missing");
    assert_eq!(
        Error::PropertyMissing { property_definition: token(TokenKind::Identifier, 1, 1, "x"), token: t.clone() }.to_string(),
        "Line 4.2: Property missing: 'x'"
    );
    assert_eq!(Error::TypeRedefinition { token: t.clone() }.to_string(), "Line 4.2: Type 'foo' redefined");
    assert_eq!(Error::TypeNotFound { token: t.clone() }.to_string(), "Line 4.2: Type 'foo' not found");
    assert_eq!(Error::PropertyDuplicated { token: t }.to_string(), "Line 4.2: Property 'foo' is duplicated");
}

#[test]
fn error_descriptions_show_the_line() {
    let source = "a = 1\n  x  foo\n";
    let error = Error::NameNotFound { token: token(TokenKind::Identifier, 2, 6, "foo") };
    assert_eq!(
        error.print(source),
        "  x  foo\n     \u{1b}[33m^^^\u{1b}[0m\nLine 2.6: Name not found in scope: foo"
    );
    let missing = Error::NameNotFound { token: token(TokenKind::Identifier, 9, 1, "z") };
    assert_eq!(missing.print(source), "\nLine 9.1: Name not found in scope: z");
    let file = Error::FileErr("gone".to_string());
    assert_eq!(file.print(source), "???\nFile error: gone");
}

#[test]
fn mismatch_description_names_all_three_places() {
    let source = "x\ny\nz";
    let error = Error::TypeMismatch {
        expected: constructor(Type::Boolean),
        got: constructor(Type::Integer),
        declared_at: token(TokenKind::Identifier, 1, 1, "x"),
        provided_at: token(TokenKind::Identifier, 2, 1, "y"),
        mismatch_at: Some(token(TokenKind::Identifier, 3, 1, "z")),
    };
    let grey = "\u{1b}[90m";
    let reset = "\u{1b}[0m";
    let caret = |c: &str| format!("{c}\n\u{1b}[33m^\u{1b}[0m");
    let expected = format!(
        "{grey}Line 3: Type mismatch:{reset}\n{}\n\n{grey}Line 2: Expected this type:{reset}\n{}\n\n{grey}Line 1: Got this type:{reset}\n{}\n\nLine 1.1: Expected bool but got int.",
        caret("z"),
        caret("y"),
        caret("x")
    );
    assert_eq!(error.print(source), expected);
}

#[test]
fn diagnostics_collect_errors_in_order() {
    let mut diagnostics = Diagnostics::default();
    assert!(!diagnostics.has_errors());
    diagnostics.add_error(Error::FunctionNotFound { name: "a".to_string() });
    diagnostics.add_error(Error::FileErr("b".to_string()));
    assert!(diagnostics.has_errors());
    assert_eq!(diagnostics.count(), 2);
    assert_eq!(diagnostics.to_string(), "Function not found: a\nFile error: b\n");
    assert_eq!(diagnostics.print("src"), vec!["???\nFunction not found: a".to_string(), "???\nFile error: b".to_string()]);
    assert_eq!(diagnostics.get_errors().len(), 2);
}

#[test]
fn columns_count_the_lexemes_before_on_the_line() {
    let source = "ab = 12\n\tcd + 3";
    let tokens = lex(source);
    let mut width = 0;
    for t in &tokens {
        assert_eq!(t.position.column, 1 + width);
        if t.kind == TokenKind::NewLine {
            width = 0;
        } else {
            width += t.lexeme.chars().count();
        }
    }
    assert_eq!(tokens.last().unwrap().lexeme, "3");
}

#[test]
fn try_unify_refuses_a_variable_occurring_in_its_type() {
    let mut substitutions = HashMap::new();
    let mut diagnostics = Diagnostics::new();
    let function_of_itself = UnificationType::Constructor {
        typ: Type::Function,
        generics: vec![UnificationType::Variable(0)],
        token: token(TokenKind::Identifier, 1, 1, "f"),
    };
    assert!(!try_unify(&UnificationType::Variable(0), &function_of_itself, &mut substitutions, &mut diagnostics));
    assert!(substitutions.is_empty());
}

#[test]
fn try_unify_binds_as_unify_does() {
    let mut substitutions = HashMap::new();
    let mut diagnostics = Diagnostics::new();
    assert!(try_unify(&UnificationType::Variable(0), &constructor(Type::Integer), &mut substitutions, &mut diagnostics));
    assert_eq!(substitutions.get(&0).unwrap().to_string(), "int");
    assert_eq!(diagnostics.count(), 0);
}

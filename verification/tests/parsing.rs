use delta::errors::Error;
use delta::expressions::{
    ArithmeticOperations, BinaryOperator, BooleanOperations, Expr, IsArmPattern, ValueType,
};
use delta::lexer::lex;
use delta::parser::{parse, parse_int, try_parse};

fn parsed(source: &str) -> Vec<Expr> {
    match parse(lex(source)) {
        Ok(exprs) => exprs,
        Err(diagnostics) => panic!("unexpected errors: {:?}", diagnostics.get_errors()),
    }
}

fn integer(e: &Expr) -> i32 {
    match e {
        Expr::Value { value: ValueType::Integer(v), .. } => *v,
        other => panic!("not an integer: {:?}", other),
    }
}

#[test]
fn multiplication_binds_tighter_than_addition() {
    let exprs = parsed("1 + 2 * 3");
    assert_eq!(exprs.len(), 1);
    match &exprs[0] {
        Expr::Binary { left, operator, right, .. } => {
            assert_eq!(*operator, BinaryOperator::IntegerOperation(ArithmeticOperations::Addition));
            assert_eq!(integer(left), 1);
            match &**right {
                Expr::Binary { left, operator, right, .. } => {
                    assert_eq!(
                        *operator,
                        BinaryOperator::IntegerOperation(ArithmeticOperations::Multiplication)
                    );
                    assert_eq!(integer(left), 2);
                    assert_eq!(integer(right), 3);
                }
                other => panic!("unexpected {:?}", other),
            }
        }
        other => panic!("unexpected {:?}", other),
    }
}

#[test]
fn float_operators_keep_the_literal_text() {
    let exprs = parsed("1.5 +. 2.25");
    match &exprs[0] {
        Expr::Binary { left, operator, .. } => {
            assert_eq!(*operator, BinaryOperator::FloatOperation(ArithmeticOperations::Addition));
            match &**left {
                Expr::Value { value: ValueType::Float(text), .. } => assert_eq!(text, "1.5"),
                other => panic!("unexpected {:?}", other),
            }
        }
        other => panic!("unexpected {:?}", other),
    }
}

#[test]
fn and_takes_the_rest_as_its_right_operand() {
    let exprs = parsed("true and false or true");
    match &exprs[0] {
        Expr::Binary { operator, right, .. } => {
            assert_eq!(*operator, BinaryOperator::BooleanOperation(BooleanOperations::And));
            assert!(matches!(
                &**right,
                Expr::Binary { operator: BinaryOperator::BooleanOperation(BooleanOperations::Or), .. }
            ));
        }
        other => panic!("unexpected {:?}", other),
    }
}

#[test]
fn pipelines_pass_the_value_as_first_argument() {
    let exprs = parsed("2 | add 3 | mul 4");
    match &exprs[0] {
        Expr::Call { name, args } => {
            assert_eq!(name.lexeme, "mul");
            assert_eq!(args.len(), 2);
            assert_eq!(integer(&args[1].expr), 4);
            match &args[0].expr {
                Expr::Call { name, args } => {
                    assert_eq!(name.lexeme, "add");
                    assert_eq!(integer(&args[0].expr), 2);
                    assert_eq!(integer(&args[1].expr), 3);
                }
                other => panic!("unexpected {:?}", other),
            }
        }
        other => panic!("unexpected {:?}", other),
    }
}

#[test]
fn is_arms_with_guard_and_default() {
    let exprs = parsed("x is\n\tn if n > 1\n\t\t2\n\t_\n\t\t3");
    match &exprs[0] {
        Expr::Is { expr, arms } => {
            assert!(matches!(&**expr, Expr::Identifier { .. }));
            assert_eq!(arms.len(), 2);
            match &arms[0].pattern {
                IsArmPattern::Capture { identifier, condition } => {
                    assert_eq!(identifier.lexeme, "n");
                    assert!(condition.is_some());
                }
                other => panic!("unexpected {:?}", other),
            }
            assert!(matches!(arms[1].pattern, IsArmPattern::Default));
            match &arms[1].block {
                Expr::Block { exprs } => assert_eq!(integer(&exprs[0]), 3),
                other => panic!("unexpected {:?}", other),
            }
        }
        other => panic!("unexpected {:?}", other),
    }
}

#[test]
fn functions_take_parameters_and_a_block() {
    let exprs = parsed("add = \\a b\n\ta + b");
    match &exprs[0] {
        Expr::Assignment { name, expr, .. } => {
            assert_eq!(name.lexeme, "add");
            match &**expr {
                Expr::Value { value: ValueType::Function { params, expr }, .. } => {
                    assert_eq!(params.len(), 2);
                    assert!(matches!(&**expr, Expr::Block { .. }));
                }
                other => panic!("unexpected {:?}", other),
            }
        }
        other => panic!("unexpected {:?}", other),
    }
}

#[test]
fn assigning_to_a_value_is_an_error() {
    match parse(lex("1 = 2")) {
        Ok(exprs) => panic!("unexpected {:?}", exprs),
        Err(diagnostics) => {
            assert_eq!(diagnostics.count(), 1);
            match &diagnostics.get_errors()[0] {
                Error::ParseErr { message, token } => {
                    assert_eq!(message, "Invalid assignment target");
                    assert_eq!(token.lexeme, "=");
                }
                other => panic!("unexpected {:?}", other),
            }
        }
    }
}

#[test]
fn too_large_integers_are_errors() {
    match parse(lex("99999999999")) {
        Ok(exprs) => panic!("unexpected {:?}", exprs),
        Err(diagnostics) => match &diagnostics.get_errors()[0] {
            Error::ParseErr { message, .. } => {
                assert_eq!(message, "number too large to fit in target type")
            }
            other => panic!("unexpected {:?}", other),
        },
    }
}

#[test]
fn an_unclosed_parenthesis_is_where_parsing_fails() {
    assert!(try_parse(lex("(1")).is_none());
}

#[test]
fn integers_read_as_str_parse_reads_them() {
    for text in ["0", "42", "-7", "+5", "2147483647", "-2147483648", "", "-", "+", "12a", "2147483648", "-2147483649"] {
        let expected = text.parse::<i32>().map_err(|e| e.to_string());
        assert_eq!(parse_int(text), expected, "{text}");
    }
}

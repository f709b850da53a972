use delta::bytecodes::ByteCode;
use delta::compiler::compile;
use delta::errors::Error;
use delta::generator::codegen;
use delta::lexer::lex;
use delta::parser::parse;
use delta::program::Context;

fn float_bits(text: &str) -> u32 {
    text.parse::<f32>().unwrap().to_bits()
}

fn generate_in(source: &str, context: &Context<fn(i32) -> i32, i32>) -> Option<Result<Vec<u8>, Vec<Error>>> {
    let exprs = match parse(lex(source)) {
        Ok(exprs) => exprs,
        Err(d) => panic!("parse errors: {:?}", d.get_errors()),
    };
    codegen(&exprs, context, &float_bits).map(|r| r.map_err(|d| d.get_errors()))
}

fn generate(source: &str) -> Vec<u8> {
    let context: Context<fn(i32) -> i32, i32> = Context::new();
    match generate_in(source, &context) {
        Some(Ok(bytes)) => bytes,
        other => panic!("unexpected {:?}", other),
    }
}

fn op(code: ByteCode) -> u8 {
    code.to_byte()
}

fn main_header() -> Vec<u8> {
    vec![op(ByteCode::FunctionChunk), 4, b'm', b'a', b'i', b'n']
}

#[test]
fn addition_pushes_both_operands_then_adds() {
    let mut expected = main_header();
    expected.extend([op(ByteCode::PushInteger), 0, 0, 0, 1]);
    expected.extend([op(ByteCode::PushInteger), 0, 0, 0, 2]);
    expected.extend([op(ByteCode::IntegerAddition), op(ByteCode::Return)]);
    assert_eq!(generate("1 + 2"), expected);
}

#[test]
fn greater_than_is_less_or_equal_negated() {
    let mut expected = main_header();
    expected.extend([op(ByteCode::PushInteger), 0, 0, 0, 3]);
    expected.extend([op(ByteCode::PushInteger), 0, 0, 0, 2]);
    expected.extend([op(ByteCode::IntegerLessThanEquals), op(ByteCode::Not), op(ByteCode::Return)]);
    assert_eq!(generate("3 > 2"), expected);
}

#[test]
fn float_literals_are_pushed_as_their_bits() {
    let mut expected = main_header();
    expected.push(op(ByteCode::PushFloat));
    expected.extend(1.5f32.to_bits().to_be_bytes());
    expected.push(op(ByteCode::Return));
    assert_eq!(generate("1.5"), expected);
}

#[test]
fn is_arms_jump_to_the_next_arm_and_to_the_end() {
    let mut expected = main_header();
    expected.extend([op(ByteCode::PushInteger), 0, 0, 0, 1, op(ByteCode::SetLocalValue), 0]);
    expected.extend([op(ByteCode::GetLocalValue), 0, op(ByteCode::PushInteger), 0, 0, 0, 1]);
    expected.extend([op(ByteCode::Equals), op(ByteCode::JumpIfFalse), 0, 8]);
    expected.extend([op(ByteCode::PushInteger), 0, 0, 0, 2, op(ByteCode::Jump), 0, 5]);
    expected.extend([op(ByteCode::PushInteger), 0, 0, 0, 3, op(ByteCode::Return)]);
    assert_eq!(generate("x = 1\nx is\n\t1\n\t\t2\n\t_\n\t\t3"), expected);
}

#[test]
fn functions_get_a_signature_and_a_chunk_of_their_own() {
    let mut expected = vec![op(ByteCode::FunctionSignature), 2, b'i', b'd', 1, 0, 31];
    expected.extend(main_header());
    expected.extend([op(ByteCode::Function), 0, 1, op(ByteCode::SetLocalValue), 0]);
    expected.extend([op(ByteCode::PushInteger), 0, 0, 0, 1]);
    expected.extend([op(ByteCode::Call), 1, 0, 0, 2, b'i', b'd', op(ByteCode::Return)]);
    expected.extend([op(ByteCode::FunctionChunk), 2, b'i', b'd']);
    expected.extend([op(ByteCode::GetLocalValue), 0, op(ByteCode::Return)]);
    let bytes = generate("id = \\a\n\ta\n1 | id");
    assert_eq!(bytes, expected);
    // The signature records where the chunk's code starts, and the code is there.
    let start = u16::from_be_bytes([bytes[5], bytes[6]]) as usize;
    assert_eq!(&bytes[start..start + 4], &[op(ByteCode::FunctionChunk), 2, b'i', b'd']);
    assert_eq!(start + 7, bytes.len());
}

#[test]
fn foreign_functions_are_called_by_index() {
    let mut context: Context<fn(i32) -> i32, i32> = Context::new();
    context.add_function("double".to_string(), |x| x * 2);
    let mut expected = main_header();
    expected.extend([op(ByteCode::PushInteger), 0, 0, 0, 4]);
    expected.extend([op(ByteCode::CallForeign), 0, 1, 6]);
    expected.extend(b"double".iter().copied());
    expected.push(op(ByteCode::Return));
    match generate_in("4 | double", &context) {
        Some(Ok(bytes)) => assert_eq!(bytes, expected),
        other => panic!("unexpected {:?}", other),
    }
}

#[test]
fn an_unknown_name_fails_generation() {
    assert!(generate_in("y + 1", &Context::new()).is_none());
}

#[test]
fn a_too_long_value_name_is_reported() {
    let name = "a".repeat(256);
    let mut context: Context<fn(i32) -> i32, i32> = Context::new();
    context.add_value(name.clone(), 1);
    match generate_in(&name, &context) {
        Some(Err(errors)) => {
            assert_eq!(errors.len(), 1);
            assert!(matches!(errors[0], Error::FunctionNameTooLong { .. }));
        }
        other => panic!("unexpected {:?}", other.map(|r| r.is_ok())),
    }
}

#[test]
fn compile_chains_the_stages() {
    let context: Context<fn(i32) -> i32, i32> = Context::new();
    match compile("1 + 2", &context, &float_bits) {
        Some(Ok(bytes)) => assert_eq!(bytes, generate("1 + 2")),
        other => panic!("unexpected {:?}", other),
    }
}

#[test]
fn compile_stops_at_the_first_stage_with_errors() {
    let context: Context<fn(i32) -> i32, i32> = Context::new();
    match compile("1 + true", &context, &float_bits) {
        Some(Err(d)) => {
            let errors = d.get_errors();
            assert_eq!(errors.len(), 1);
            assert_eq!(errors[0].to_string(), "Line 1.5: Expected int but got bool.");
        }
        other => panic!("unexpected {:?}", other),
    }
    match compile("1 = 2", &context, &float_bits) {
        Some(Err(d)) => assert!(matches!(d.get_errors()[0], Error::ParseErr { .. })),
        other => panic!("unexpected {:?}", other),
    }
}

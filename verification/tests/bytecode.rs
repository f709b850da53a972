use delta::bytecodes::ByteCode;
use delta::codegen::{BytecodeBuilder, Scope};
use delta::disassembler::{decodes, disassemble};
use delta::CompilationMetadata;

fn float_text(bits: u32) -> String {
    f32::from_bits(bits).to_string()
}

fn listing(bytes: Vec<u8>) -> String {
    let mut metadata = CompilationMetadata::default();
    metadata.bytecode_length = bytes.len();
    assert!(decodes(&bytes));
    disassemble(bytes, &mut metadata, float_text);
    metadata.disassembled_instructions
}

#[test]
fn opcodes_round_trip() {
    assert_eq!(ByteCode::IntegerAddition.to_byte(), 0);
    assert_eq!(ByteCode::PushTrue.to_byte(), 24);
    assert_eq!(ByteCode::PushInteger.to_byte(), 27);
    assert_eq!(ByteCode::JumpIfFalse.to_byte(), 42);
    assert_eq!(u8::from(ByteCode::Jump), 40);
    assert!(matches!(ByteCode::try_from(36u8), Ok(ByteCode::Return)));
    assert!(ByteCode::try_from(43u8).is_err());
    assert!(ByteCode::from_byte(255).is_none());
    assert!(matches!(ByteCode::from_byte(34), Some(ByteCode::FunctionChunk)));
}

#[test]
fn builder_writes_big_endian_operands() {
    let mut builder = BytecodeBuilder::new();
    builder.add_op(ByteCode::PushInteger).add_i32(&5);
    builder.add_i16(&-2).add_byte(7).add_bytes(&[1, 2]);
    assert_eq!(builder.bytes(), &vec![27, 0, 0, 0, 5, 0xff, 0xfe, 7, 1, 2]);
}

#[test]
fn builder_writes_strings_with_length() {
    let mut builder = BytecodeBuilder::new();
    builder.add_get_context_value("hi").add_set_local_value(3).add_get_local_value(4);
    builder.add_set_context_value("é");
    assert_eq!(builder.bytes(), &vec![22, 2, b'h', b'i', 21, 3, 20, 4, 23, 2, 0xc3, 0xa9]);
}

#[test]
fn builder_patches_jumps() {
    let mut builder = BytecodeBuilder::new();
    let jump = builder.add_jump_if_false();
    assert_eq!(jump, 1);
    builder.add_op(ByteCode::PushTrue).add_op(ByteCode::PushFalse);
    builder.patch_jump_to_current_byte(jump);
    assert_eq!(builder.bytes(), &vec![42, 0, 2, 24, 25]);
    let back = builder.add_unconditional_jump();
    assert_eq!(back, 6);
    builder.patch_i16_offset(back, -7);
    assert_eq!(builder.bytes()[5..], [40, 0xff, 0xf9]);
    let slot = builder.get_patchable_i16_offset();
    assert_eq!(slot, 8);
    builder.patch_i16_offset(slot, 300);
    assert_eq!(builder.bytes()[8..], [1, 44]);
}

#[test]
fn scope_for_function_keeps_names() {
    let mut scope = Scope::new();
    scope.environment.insert("x".to_string(), 1);
    scope.locals.insert("y".to_string());
    let inner = scope.function();
    assert_eq!(inner.environment.get("x"), Some(&1));
    assert!(inner.locals.is_empty());
    assert!(inner.bytecode.bytes().is_empty());
}

#[test]
fn disassembles_plain_instructions() {
    assert_eq!(listing(vec![27, 0, 0, 0, 5, 24, 36]), "0 \tpush_integer (value: 5)\n5 \tpush_true\n6 \tret\n");
    assert_eq!(listing(vec![27, 0xff, 0xff, 0xff, 0xfd]), "0 \tpush_integer (value: -3)\n");
    assert_eq!(listing(vec![]), "");
}

#[test]
fn disassembles_operands() {
    assert_eq!(listing(vec![26, 0x40, 0x48, 0xf5, 0xc3]), "0 \tpush_float (value: 3.14)\n");
    assert_eq!(listing(vec![28, 2, b'h', b'i']), "0 \tpush_string (value: 'hi')\n");
    assert_eq!(listing(vec![20, 3, 21, 4]), "0 \tget_value (index: 3)\n2 \tset_value (index: 4)\n");
    assert_eq!(listing(vec![22, 1, b'a']), "0 \tget_context_value (name: a)\n");
    assert_eq!(
        listing(vec![33, 1, b'f', 2, 0, 9]),
        "0 \tfunction signature (name: f) (local count: 2) (function position: 9)\n"
    );
    assert_eq!(listing(vec![35, 1, 2]), "0 \tfunction (function index: 1) (params: 2)\n");
    assert_eq!(
        listing(vec![37, 2, 1, 0, 1, b'g']),
        "0 \tcall g (is_global: 1) (arg count: 2, function index: 0)\n"
    );
    assert_eq!(
        listing(vec![38, 5, 1, 1, b'h']),
        "0 \tcall foreign function h (arg count: 1, foreign_index: 5)\n"
    );
}

#[test]
fn disassembles_chunks_and_jumps() {
    assert_eq!(listing(vec![34, 4, b'm', b'a', b'i', b'n']), "\n0 \t=== function chunk: main ===\n");
    assert_eq!(listing(vec![40, 0, 3]), "0 \tjump (offset: 3, to byte 6)\n");
    assert_eq!(listing(vec![40, 0xff, 0xfd]), "0 \tjump (offset: -3, to byte 0)\n");
    assert_eq!(listing(vec![42, 0, 2, 24, 25]), "0 \tjump if false (offset: 2, to byte 5)\n3 \tpush_true\n4 \tpush_false\n");
    assert_eq!(listing(vec![41, 0, 0]), "0 \tjump if true (offset: 0, to byte 3)\n");
}

#[test]
fn decodes_rejects_broken_programs() {
    assert!(!decodes(&vec![43]));
    assert!(!decodes(&vec![27, 0, 0]));
    assert!(!decodes(&vec![28, 3, b'a']));
    assert!(!decodes(&vec![28, 1, 0xff]));
    assert!(!decodes(&vec![42, 0xff, 0xfe]));
    assert!(decodes(&vec![24, 25]));
}

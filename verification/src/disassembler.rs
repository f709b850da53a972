use vstd::prelude::*;

use crate::bytecodes::{decode_opcode, ByteCode};
use crate::codegen::{i16_from_be, i32_from_be};
use crate::emission::binary_code;
use crate::expressions::{ArithmeticOperations, BinaryOperator, Comparisons};
use crate::text::{decimal, push_char, push_signed, push_str, push_unsigned};
use crate::CompilationMetadata;

verus! {

/// The big-endian `u32` at `pc`.
pub open spec fn u32_at(p: Seq<u8>, pc: int) -> u32 {
    (((p[pc] as u32) << 24u32) | ((p[pc + 1] as u32) << 16u32) | ((p[pc + 2] as u32) << 8u32) | (
    p[pc + 3] as u32))
}

/// The string operand at `pc`: a length byte, then that many bytes of UTF-8. Gives the
/// characters and the position after the operand, or `None` when the bytes run out or are
/// not UTF-8.
pub open spec fn string_at(p: Seq<u8>, pc: int) -> Option<(Seq<char>, int)> {
    if 0 <= pc < p.len() && pc + 1 + p[pc] <= p.len() && vstd::utf8::valid_utf8(
        p.subrange(pc + 1, pc + 1 + p[pc]),
    ) {
        Some((vstd::utf8::decode_utf8(p.subrange(pc + 1, pc + 1 + p[pc])), pc + 1 + p[pc]))
    } else {
        None
    }
}

/// The characters of the string operand at `pc`.
pub open spec fn str_text(p: Seq<u8>, pc: int) -> Seq<char> {
    match string_at(p, pc) {
        Some((s, _)) => s,
        None => Seq::empty(),
    }
}

/// The position after the string operand at `pc`.
pub open spec fn str_end(p: Seq<u8>, pc: int) -> int {
    match string_at(p, pc) {
        Some((_, e)) => e,
        None => pc,
    }
}

/// The mnemonic of an instruction without operands.
pub open spec fn plain_text(code: ByteCode) -> Option<Seq<char>> {
    match code {
        ByteCode::PushTrue => Some("push_true"@),
        ByteCode::PushFalse => Some("push_false"@),
        ByteCode::GetTagName => Some("get_tag_name"@),
        ByteCode::GetTagPayload => Some("get_tag_payload"@),
        ByteCode::IntegerAddition => Some("int_add"@),
        ByteCode::IntegerSubtraction => Some("int_sub"@),
        ByteCode::IntegerMultiplication => Some("int_mult"@),
        ByteCode::IntegerDivision => Some("int_div"@),
        ByteCode::IntegerModulo => Some("int_mod"@),
        ByteCode::IntegerLessThan => Some("int_lt"@),
        ByteCode::IntegerLessThanEquals => Some("int_lte"@),
        ByteCode::FloatAddition => Some("float_add"@),
        ByteCode::FloatSubtraction => Some("float_sub"@),
        ByteCode::FloatMultiplication => Some("float_mult"@),
        ByteCode::FloatDivision => Some("float_div"@),
        ByteCode::FloatModulo => Some("float_mod"@),
        ByteCode::FloatLessThan => Some("float_lt"@),
        ByteCode::FloatLessThanEquals => Some("float_lte"@),
        ByteCode::StringConcat => Some("str_concat"@),
        ByteCode::BooleanAnd => Some("and"@),
        ByteCode::BooleanOr => Some("or"@),
        ByteCode::Equals => Some("eq"@),
        ByteCode::Negation => Some("neg"@),
        ByteCode::Not => Some("not"@),
        ByteCode::Return => Some("ret"@),
        _ => None,
    }
}

/// The position after the instruction at `pc` and its operands, or `None` when the byte at
/// `pc` is no opcode, an operand runs past the end, a string operand is not UTF-8, or the
/// target of a jump cannot be computed without overflow.
pub open spec fn next_pc(p: Seq<u8>, pc: int) -> Option<int> {
    if !(0 <= pc < p.len()) {
        None
    } else {
        let a = pc + 1;
        match decode_opcode(p[pc]) {
            None => None,
            Some(code) => if plain_text(code) is Some {
                Some(a)
            } else {
                match code {
                    ByteCode::PushInteger | ByteCode::PushFloat => if a + 4 <= p.len() {
                        Some(a + 4)
                    } else {
                        None
                    },
                    ByteCode::GetLocalValue | ByteCode::SetLocalValue => if a + 1 <= p.len() {
                        Some(a + 1)
                    } else {
                        None
                    },
                    ByteCode::Function => if a + 2 <= p.len() {
                        Some(a + 2)
                    } else {
                        None
                    },
                    ByteCode::FunctionSignature => match string_at(p, a) {
                        Some((_, b)) => if b + 3 <= p.len() {
                            Some(b + 3)
                        } else {
                            None
                        },
                        None => None,
                    },
                    ByteCode::Call => if a + 3 <= p.len() {
                        match string_at(p, a + 3) {
                            Some((_, b)) => Some(b),
                            None => None,
                        }
                    } else {
                        None
                    },
                    ByteCode::CallForeign => if a + 2 <= p.len() {
                        match string_at(p, a + 2) {
                            Some((_, b)) => Some(b),
                            None => None,
                        }
                    } else {
                        None
                    },
                    ByteCode::Jump => if a + 2 <= p.len() && i16::MIN <= ((a + 2) as i16)
                        + i16_from_be(p[a], p[a + 1]) <= i16::MAX {
                        Some(a + 2)
                    } else {
                        None
                    },
                    ByteCode::JumpIfTrue | ByteCode::JumpIfFalse => if a + 2 <= p.len() && (a + 2)
                        + (i16_from_be(p[a], p[a + 1]) as usize) <= usize::MAX {
                        Some(a + 2)
                    } else {
                        None
                    },
                    _ => match string_at(p, a) {
                        Some((_, b)) => Some(b),
                        None => None,
                    },
                }
            },
        }
    }
}

/// Whether the bytes from `pc` on are a sequence of whole instructions.
pub open spec fn decodes_from(p: Seq<u8>, pc: int) -> bool
    decreases p.len() - pc,
{
    if pc >= p.len() {
        pc == p.len()
    } else {
        match next_pc(p, pc) {
            Some(n) => pc < n && decodes_from(p, n),
            None => false,
        }
    }
}

/// The text of the instruction at `pc`, without its position; `float_text` renders the bits of
/// a float operand.
pub open spec fn instruction_text(p: Seq<u8>, pc: int, float_text: spec_fn(u32) -> Seq<char>) -> Seq<
    char,
> {
    let a = pc + 1;
    let code = decode_opcode(p[pc])->0;
    if plain_text(code) is Some {
        plain_text(code)->0
    } else {
        match code {
            ByteCode::PushInteger => "push_integer (value: "@ + decimal(
                i32_from_be(p[a], p[a + 1], p[a + 2], p[a + 3]) as int,
            ) + ")"@,
            ByteCode::PushFloat => "push_float (value: "@ + float_text(u32_at(p, a)) + ")"@,
            ByteCode::PushString => "push_string (value: '"@ + str_text(p, a) + "')"@,
            ByteCode::PushSimpleTag => "push_simple_tag (value: '"@ + str_text(p, a) + "')"@,
            ByteCode::PushTag => "push_tag (value: '"@ + str_text(p, a) + "')"@,
            ByteCode::GetLocalValue => "get_value (index: "@ + decimal(p[a] as int) + ")"@,
            ByteCode::SetLocalValue => "set_value (index: "@ + decimal(p[a] as int) + ")"@,
            ByteCode::GetForeignValue => "get_foreign_value (name: "@ + str_text(p, a)
                + ")"@,
            ByteCode::GetContextValue => "get_context_value (name: "@ + str_text(p, a)
                + ")"@,
            ByteCode::SetContextValue => "set_context_value (name: "@ + str_text(p, a)
                + ")"@,
            ByteCode::FunctionSignature => {
                let b = str_end(p, a);
                "function signature (name: "@ + str_text(p, a) + ") (local count: "@
                    + decimal(p[b] as int) + ") (function position: "@ + decimal(
                    i16_from_be(p[b + 1], p[b + 2]) as int,
                ) + ")"@
            },
            ByteCode::FunctionChunk => "=== function chunk: "@ + str_text(p, a) + " ==="@,
            ByteCode::Function => "function (function index: "@ + decimal(p[a] as int)
                + ") (params: "@ + decimal(p[a + 1] as int) + ")"@,
            ByteCode::Call => "call "@ + str_text(p, a + 3) + " (is_global: "@ + decimal(
                p[a + 1] as int,
            ) + ") (arg count: "@ + decimal(p[a] as int) + ", function index: "@ + decimal(
                p[a + 2] as int,
            ) + ")"@,
            ByteCode::CallForeign => "call foreign function "@ + str_text(p, a + 2)
                + " (arg count: "@ + decimal(p[a + 1] as int) + ", foreign_index: "@ + decimal(
                p[a] as int,
            ) + ")"@,
            ByteCode::Jump => "jump (offset: "@ + decimal(i16_from_be(p[a], p[a + 1]) as int)
                + ", to byte "@ + decimal(((a + 2) as i16) + i16_from_be(p[a], p[a + 1])) + ")"@,
            ByteCode::JumpIfTrue => "jump if true (offset: "@ + decimal(
                i16_from_be(p[a], p[a + 1]) as int,
            ) + ", to byte "@ + decimal((a + 2) + (i16_from_be(p[a], p[a + 1]) as usize)) + ")"@,
            _ => "jump if false (offset: "@ + decimal(i16_from_be(p[a], p[a + 1]) as int)
                + ", to byte "@ + decimal((a + 2) + (i16_from_be(p[a], p[a + 1]) as usize)) + ")"@,
        }
    }
}

/// The listing line of the instruction at `pc`: its position, a tab, its text and a line
/// break; a function chunk is preceded by an empty line.
pub open spec fn instruction_line(p: Seq<u8>, pc: int, float_text: spec_fn(u32) -> Seq<char>) -> Seq<
    char,
> {
    let line = decimal(pc) + " \t"@ + instruction_text(p, pc, float_text) + "\n"@;
    if decode_opcode(p[pc]) == Some(ByteCode::FunctionChunk) {
        "\n"@ + line
    } else {
        line
    }
}

/// The listing of the instructions from `pc` on.
pub open spec fn listing_from(p: Seq<u8>, pc: int, float_text: spec_fn(u32) -> Seq<char>) -> Seq<
    char,
>
    decreases p.len() - pc,
{
    if pc >= p.len() {
        Seq::empty()
    } else {
        match next_pc(p, pc) {
            Some(n) => if pc < n {
                instruction_line(p, pc, float_text) + listing_from(p, n, float_text)
            } else {
                Seq::empty()
            },
            None => Seq::empty(),
        }
    }
}

/// Whether `f` renders float bits as `float_text` does.
pub open spec fn renders_as<F: Fn(u32) -> String>(f: F, float_text: spec_fn(u32) -> Seq<char>) -> bool {
    forall|bits: u32, s: String| call_ensures(f, (bits,), s) ==> s@ == float_text(bits)
}

/// Decodes `bytes` with `String::from_utf8`: a string exactly when the bytes are UTF-8, and
/// then the characters that they encode.
#[verifier::external_body]
fn string_from_utf8(bytes: Vec<u8>) -> (r: Option<String>)
    ensures
        r is Some <==> vstd::utf8::valid_utf8(bytes@),
        r is Some ==> r->0@ == vstd::utf8::decode_utf8(bytes@),
{
    String::from_utf8(bytes).ok()
}

/// A copy of the bytes `p[from..to]`.
fn copy_range(p: &Vec<u8>, from: usize, to: usize) -> (r: Vec<u8>)
    requires
        from <= to <= p.len(),
    ensures
        r@ == p@.subrange(from as int, to as int),
{
    let mut r: Vec<u8> = Vec::new();
    let mut i: usize = from;
    while i < to
        invariant
            from <= i <= to <= p.len(),
            r@ == p@.subrange(from as int, i as int),
        decreases to - i,
    {
        r.push(p[i]);
        i += 1;
        proof {
            assert(r@ =~= p@.subrange(from as int, i as int));
        }
    }
    r
}

/// Reads a program instruction by instruction and writes one line of text for each.
pub struct Disassembler {
    program: Vec<u8>,
    program_counter: usize,
    last_program_counter: usize,
}

impl Disassembler {
    /// The bytes being read.
    pub closed spec fn program(&self) -> Seq<u8> {
        self.program@
    }

    /// The position of the next instruction to read.
    pub closed spec fn position(&self) -> int {
        self.program_counter as int
    }

    fn new(program: Vec<u8>) -> (r: Self)
        ensures
            r.program() == program@,
            r.position() == 0,
    {
        Self { program, program_counter: 0, last_program_counter: 0 }
    }

    fn read_byte(&mut self) -> (r: u8)
        requires
            old(self).program_counter < old(self).program.len(),
        ensures
            r == old(self).program@[old(self).program_counter as int],
            final(self).program == old(self).program,
            final(self).program_counter == old(self).program_counter + 1,
            final(self).last_program_counter == old(self).last_program_counter,
    {
        let byte = self.program[self.program_counter];
        self.program_counter += 1;
        byte
    }

    fn read_i16(&mut self) -> (r: i16)
        requires
            old(self).program_counter + 2 <= old(self).program.len(),
        ensures
            r == i16_from_be(
                old(self).program@[old(self).program_counter as int],
                old(self).program@[old(self).program_counter + 1],
            ),
            final(self).program == old(self).program,
            final(self).program_counter == old(self).program_counter + 2,
            final(self).last_program_counter == old(self).last_program_counter,
    {
        let hi = self.read_byte();
        let lo = self.read_byte();
        (((hi as u16) << 8u16) | (lo as u16)) as i16
    }

    fn read_u32(&mut self) -> (r: u32)
        requires
            old(self).program_counter + 4 <= old(self).program.len(),
        ensures
            r == u32_at(old(self).program@, old(self).program_counter as int),
            final(self).program == old(self).program,
            final(self).program_counter == old(self).program_counter + 4,
            final(self).last_program_counter == old(self).last_program_counter,
    {
        let b0 = self.read_byte();
        let b1 = self.read_byte();
        let b2 = self.read_byte();
        let b3 = self.read_byte();
        ((b0 as u32) << 24u32) | ((b1 as u32) << 16u32) | ((b2 as u32) << 8u32) | (b3 as u32)
    }

    fn read_i32(&mut self) -> (r: i32)
        requires
            old(self).program_counter + 4 <= old(self).program.len(),
        ensures
            r == i32_from_be(
                old(self).program@[old(self).program_counter as int],
                old(self).program@[old(self).program_counter + 1],
                old(self).program@[old(self).program_counter + 2],
                old(self).program@[old(self).program_counter + 3],
            ),
            final(self).program == old(self).program,
            final(self).program_counter == old(self).program_counter + 4,
            final(self).last_program_counter == old(self).last_program_counter,
    {
        let bits = self.read_u32();
        bits as i32
    }

    fn read_string_bytes(&mut self, length: u8) -> (r: String)
        requires
            old(self).program_counter + length <= old(self).program.len(),
            vstd::utf8::valid_utf8(
                old(self).program@.subrange(
                    old(self).program_counter as int,
                    old(self).program_counter + length,
                ),
            ),
        ensures
            r@ == vstd::utf8::decode_utf8(
                old(self).program@.subrange(
                    old(self).program_counter as int,
                    old(self).program_counter + length,
                ),
            ),
            final(self).program == old(self).program,
            final(self).program_counter == old(self).program_counter + length,
            final(self).last_program_counter == old(self).last_program_counter,
    {
        let end = self.program_counter + length as usize;
        let bytes = copy_range(&self.program, self.program_counter, end);
        self.program_counter = end;
        string_from_utf8(bytes).unwrap()
    }

    fn read_string(&mut self) -> (r: String)
        requires
            string_at(old(self).program@, old(self).program_counter as int) is Some,
        ensures
            r@ == str_text(old(self).program@, old(self).program_counter as int),
            final(self).program_counter == str_end(
                old(self).program@,
                old(self).program_counter as int,
            ),
            final(self).program == old(self).program,
            final(self).last_program_counter == old(self).last_program_counter,
    {
        let length = self.read_byte();
        self.read_string_bytes(length)
    }

    /// The line for the instruction that starts at the last position: the position, a tab,
    /// `text` and a line break.
    fn print(&self, text: &str) -> (r: String)
        ensures
            r@ == decimal(self.last_program_counter as int) + " \t"@ + text@ + "\n"@,
    {
        let mut line = String::new();
        push_unsigned(&mut line, self.last_program_counter as u64);
        push_str(&mut line, " \t");
        push_str(&mut line, text);
        push_str(&mut line, "\n");
        line
    }

    /// `prefix`, the decimal text of the byte operand, and `)`.
    fn byte_operand_text(&mut self, prefix: &str) -> (r: String)
        requires
            old(self).program_counter < old(self).program.len(),
        ensures
            r@ == prefix@ + decimal(old(self).program@[old(self).program_counter as int] as int)
                + ")"@,
            final(self).program == old(self).program,
            final(self).program_counter == old(self).program_counter + 1,
            final(self).last_program_counter == old(self).last_program_counter,
    {
        let value = self.read_byte();
        let mut text = String::new();
        push_str(&mut text, prefix);
        push_unsigned(&mut text, value as u64);
        push_str(&mut text, ")");
        text
    }

    /// `prefix`, the string operand, and `suffix`.
    fn string_operand_text(&mut self, prefix: &str, suffix: &str) -> (r: String)
        requires
            string_at(old(self).program@, old(self).program_counter as int) is Some,
        ensures
            r@ == prefix@ + str_text(old(self).program@, old(self).program_counter as int)
                + suffix@,
            final(self).program_counter == str_end(
                old(self).program@,
                old(self).program_counter as int,
            ),
            final(self).program == old(self).program,
            final(self).last_program_counter == old(self).last_program_counter,
    {
        let value = self.read_string();
        let mut text = String::new();
        push_str(&mut text, prefix);
        push_str(&mut text, value.as_str());
        push_str(&mut text, suffix);
        text
    }

    /// The text of an instruction with operands, whose opcode was just read; reads the
    /// operands.
    #[verifier::rlimit(40)]
    fn operand_text<F: Fn(u32) -> String>(&mut self, code: ByteCode, float_text: &F) -> (r: String)
        requires
            old(self).last_program_counter < old(self).program.len(),
            old(self).program_counter == old(self).last_program_counter + 1,
            decode_opcode(old(self).program@[old(self).last_program_counter as int]) == Some(code),
            plain_text(code) is None,
            next_pc(old(self).program@, old(self).last_program_counter as int) is Some,
            forall|bits: u32| call_requires(*float_text, (bits,)),
        ensures
            final(self).program == old(self).program,
            final(self).last_program_counter == old(self).last_program_counter,
            final(self).program_counter == next_pc(
                old(self).program@,
                old(self).last_program_counter as int,
            )->0,
            forall|ft: spec_fn(u32) -> Seq<char>|
                #[trigger] renders_as(*float_text, ft) ==> r@ == instruction_text(
                    old(self).program@,
                    old(self).last_program_counter as int,
                    ft,
                ),
    {
        match code {
            ByteCode::PushInteger => {
                let value = self.read_i32();
                let mut text = String::new();
                push_str(&mut text, "push_integer (value: ");
                push_signed(&mut text, value as i64);
                push_str(&mut text, ")");
                text
            },
            ByteCode::PushFloat => {
                let bits = self.read_u32();
                let value = float_text(bits);
                let mut text = String::new();
                push_str(&mut text, "push_float (value: ");
                push_str(&mut text, value.as_str());
                push_str(&mut text, ")");
                text
            },
            ByteCode::PushString => self.string_operand_text("push_string (value: '", "')"),
            ByteCode::PushSimpleTag => self.string_operand_text("push_simple_tag (value: '", "')"),
            ByteCode::PushTag => self.string_operand_text("push_tag (value: '", "')"),
            ByteCode::GetLocalValue => self.byte_operand_text("get_value (index: "),
            ByteCode::SetLocalValue => self.byte_operand_text("set_value (index: "),
            ByteCode::GetForeignValue => self.string_operand_text("get_foreign_value (name: ", ")"),
            ByteCode::GetContextValue => self.string_operand_text("get_context_value (name: ", ")"),
            ByteCode::SetContextValue => self.string_operand_text("set_context_value (name: ", ")"),
            ByteCode::FunctionChunk => self.string_operand_text("=== function chunk: ", " ==="),
            ByteCode::FunctionSignature => {
                let name = self.read_string();
                let local_count = self.read_byte();
                let position = self.read_i16();
                let mut text = String::new();
                push_str(&mut text, "function signature (name: ");
                push_str(&mut text, name.as_str());
                push_str(&mut text, ") (local count: ");
                push_unsigned(&mut text, local_count as u64);
                push_str(&mut text, ") (function position: ");
                push_signed(&mut text, position as i64);
                push_str(&mut text, ")");
                text
            },
            ByteCode::Function => {
                let function_index = self.read_byte();
                let param_count = self.read_byte();
                let mut text = String::new();
                push_str(&mut text, "function (function index: ");
                push_unsigned(&mut text, function_index as u64);
                push_str(&mut text, ") (params: ");
                push_unsigned(&mut text, param_count as u64);
                push_str(&mut text, ")");
                text
            },
            ByteCode::Call => {
                let arg_count = self.read_byte();
                let is_global = self.read_byte();
                let index = self.read_byte();
                let name = self.read_string();
                let mut text = String::new();
                push_str(&mut text, "call ");
                push_str(&mut text, name.as_str());
                push_str(&mut text, " (is_global: ");
                push_unsigned(&mut text, is_global as u64);
                push_str(&mut text, ") (arg count: ");
                push_unsigned(&mut text, arg_count as u64);
                push_str(&mut text, ", function index: ");
                push_unsigned(&mut text, index as u64);
                push_str(&mut text, ")");
                text
            },
            ByteCode::CallForeign => {
                let foreign_index = self.read_byte();
                let arg_count = self.read_byte();
                let name = self.read_string();
                let mut text = String::new();
                push_str(&mut text, "call foreign function ");
                push_str(&mut text, name.as_str());
                push_str(&mut text, " (arg count: ");
                push_unsigned(&mut text, arg_count as u64);
                push_str(&mut text, ", foreign_index: ");
                push_unsigned(&mut text, foreign_index as u64);
                push_str(&mut text, ")");
                text
            },
            ByteCode::Jump => {
                let offset = self.read_i16();
                let target = self.program_counter as i16 + offset;
                let mut text = String::new();
                push_str(&mut text, "jump (offset: ");
                push_signed(&mut text, offset as i64);
                push_str(&mut text, ", to byte ");
                push_signed(&mut text, target as i64);
                push_str(&mut text, ")");
                text
            },
            ByteCode::JumpIfTrue => {
                let offset = self.read_i16();
                let target = self.program_counter + offset as usize;
                let mut text = String::new();
                push_str(&mut text, "jump if true (offset: ");
                push_signed(&mut text, offset as i64);
                push_str(&mut text, ", to byte ");
                push_unsigned(&mut text, target as u64);
                push_str(&mut text, ")");
                text
            },
            ByteCode::JumpIfFalse => {
                let offset = self.read_i16();
                let target = self.program_counter + offset as usize;
                let mut text = String::new();
                push_str(&mut text, "jump if false (offset: ");
                push_signed(&mut text, offset as i64);
                push_str(&mut text, ", to byte ");
                push_unsigned(&mut text, target as u64);
                push_str(&mut text, ")");
                text
            },
            _ => String::new(),
        }
    }

    /// Reads the instruction at the current position and gives its listing line.
    fn next_line<F: Fn(u32) -> String>(&mut self, float_text: &F) -> (line: String)
        requires
            old(self).program_counter < old(self).program.len(),
            next_pc(old(self).program@, old(self).program_counter as int) is Some,
            forall|bits: u32| call_requires(*float_text, (bits,)),
        ensures
            final(self).program == old(self).program,
            final(self).program_counter == next_pc(
                old(self).program@,
                old(self).program_counter as int,
            )->0,
            forall|ft: spec_fn(u32) -> Seq<char>|
                #[trigger] renders_as(*float_text, ft) ==> line@ == instruction_line(
                    old(self).program@,
                    old(self).program_counter as int,
                    ft,
                ),
    {
        let code = ByteCode::from_byte(self.program[self.program_counter]).unwrap();
        self.last_program_counter = self.program_counter;
        self.program_counter += 1;
        let text = match plain_mnemonic(code) {
            Some(mnemonic) => {
                let mut text = String::new();
                push_str(&mut text, mnemonic);
                text
            },
            None => self.operand_text(code, float_text),
        };
        let line = self.print(text.as_str());
        if matches!(code, ByteCode::FunctionChunk) {
            let mut spaced = String::new();
            push_str(&mut spaced, "\n");
            push_str(&mut spaced, line.as_str());
            spaced
        } else {
            line
        }
    }

    /// Writes the listing of the instructions from the current position to the end into
    /// `metadata`; `float_text` renders the bits of a float operand.
    pub fn disassemble<F: Fn(u32) -> String>(
        &mut self,
        metadata: &mut CompilationMetadata,
        float_text: F,
    )
        requires
            decodes_from(old(self).program(), old(self).position()),
            forall|bits: u32| call_requires(float_text, (bits,)),
        ensures
            forall|ft: spec_fn(u32) -> Seq<char>|
                #[trigger] renders_as(float_text, ft)
                    ==> final(metadata).disassembled_instructions@ == listing_from(
                    old(self).program(),
                    old(self).position(),
                    ft,
                ),
            final(metadata).bytecode == old(metadata).bytecode,
            final(metadata).bytecode_length == old(metadata).bytecode_length,
            final(self).program() == old(self).program(),
            final(self).position() == old(self).program().len(),
    {
        let ghost p = self.program@;
        let ghost start = self.program_counter as int;
        let mut result = String::new();
        while self.program_counter < self.program.len()
            invariant
                self.program@ == p,
                start <= self.program_counter <= p.len(),
                decodes_from(p, self.program_counter as int),
                forall|bits: u32| call_requires(float_text, (bits,)),
                forall|ft: spec_fn(u32) -> Seq<char>|
                    #[trigger] renders_as(float_text, ft) ==> result@ + listing_from(
                        p,
                        self.program_counter as int,
                        ft,
                    ) == listing_from(p, start, ft),
            decreases p.len() - self.program_counter,
        {
            let ghost pc = self.program_counter as int;
            let ghost before = result@;
            let line = self.next_line(&float_text);
            push_str(&mut result, line.as_str());
            proof {
                assert forall|ft: spec_fn(u32) -> Seq<char>|
                    #[trigger] renders_as(float_text, ft) implies result@ + listing_from(
                        p,
                        self.program_counter as int,
                        ft,
                    ) == listing_from(p, start, ft) by {
                    assert(listing_from(p, pc, ft) == line@ + listing_from(
                        p,
                        self.program_counter as int,
                        ft,
                    ));
                    assert(result@ + listing_from(p, self.program_counter as int, ft) =~= before
                        + listing_from(p, pc, ft));
                }
            }
        }
        proof {
            assert forall|ft: spec_fn(u32) -> Seq<char>|
                #[trigger] renders_as(float_text, ft) implies result@ == listing_from(
                    p,
                    start,
                    ft,
                ) by {
                assert(result@ + listing_from(p, self.program_counter as int, ft) =~= result@);
            }
        }
        metadata.disassembled_instructions = result;
    }
}

/// The mnemonic of an instruction without operands, as `plain_text` gives it.
fn plain_mnemonic(code: ByteCode) -> (r: Option<&'static str>)
    ensures
        match r {
            Some(t) => plain_text(code) == Some(t@),
            None => plain_text(code) is None,
        },
{
    match code {
        ByteCode::PushTrue => Some("push_true"),
        ByteCode::PushFalse => Some("push_false"),
        ByteCode::GetTagName => Some("get_tag_name"),
        ByteCode::GetTagPayload => Some("get_tag_payload"),
        ByteCode::IntegerAddition => Some("int_add"),
        ByteCode::IntegerSubtraction => Some("int_sub"),
        ByteCode::IntegerMultiplication => Some("int_mult"),
        ByteCode::IntegerDivision => Some("int_div"),
        ByteCode::IntegerModulo => Some("int_mod"),
        ByteCode::IntegerLessThan => Some("int_lt"),
        ByteCode::IntegerLessThanEquals => Some("int_lte"),
        ByteCode::FloatAddition => Some("float_add"),
        ByteCode::FloatSubtraction => Some("float_sub"),
        ByteCode::FloatMultiplication => Some("float_mult"),
        ByteCode::FloatDivision => Some("float_div"),
        ByteCode::FloatModulo => Some("float_mod"),
        ByteCode::FloatLessThan => Some("float_lt"),
        ByteCode::FloatLessThanEquals => Some("float_lte"),
        ByteCode::StringConcat => Some("str_concat"),
        ByteCode::BooleanAnd => Some("and"),
        ByteCode::BooleanOr => Some("or"),
        ByteCode::Equals => Some("eq"),
        ByteCode::Negation => Some("neg"),
        ByteCode::Not => Some("not"),
        ByteCode::Return => Some("ret"),
        _ => None,
    }
}

/// Writes the listing of `bytes` into `metadata`; `float_text` renders the bits of a float
/// operand.
pub fn disassemble<F: Fn(u32) -> String>(
    bytes: Vec<u8>,
    metadata: &mut CompilationMetadata,
    float_text: F,
)
    requires
        decodes_from(bytes@, 0),
        forall|bits: u32| call_requires(float_text, (bits,)),
    ensures
        forall|ft: spec_fn(u32) -> Seq<char>|
            #[trigger] renders_as(float_text, ft)
                ==> final(metadata).disassembled_instructions@ == listing_from(bytes@, 0, ft),
        final(metadata).bytecode == old(metadata).bytecode,
        final(metadata).bytecode_length == old(metadata).bytecode_length,
{
    Disassembler::new(bytes).disassemble(metadata, float_text)
}

/// The position after the string operand at `pc`, when there is a whole one.
fn string_end(p: &Vec<u8>, pc: usize) -> (r: Option<usize>)
    ensures
        match r {
            Some(e) => string_at(p@, pc as int) is Some && e == str_end(p@, pc as int),
            None => string_at(p@, pc as int) is None,
        },
{
    if pc >= p.len() {
        return None;
    }
    let length = p[pc] as usize;
    if length > p.len() - pc - 1 {
        return None;
    }
    let end = pc + 1 + length;
    let bytes = copy_range(p, pc + 1, end);
    if string_from_utf8(bytes).is_some() {
        Some(end)
    } else {
        None
    }
}

/// The position after the instruction at `pc` and its operands, as `next_pc` gives it.
fn instruction_end(p: &Vec<u8>, pc: usize) -> (r: Option<usize>)
    requires
        pc < p.len(),
    ensures
        match r {
            Some(n) => next_pc(p@, pc as int) == Some(n as int),
            None => next_pc(p@, pc as int) is None,
        },
{
    let code = match ByteCode::from_byte(p[pc]) {
        Some(code) => code,
        None => return None,
    };
    let a = pc + 1;
    let room = p.len() - a;
    if plain_mnemonic(code).is_some() {
        return Some(a);
    }
    match code {
        ByteCode::PushInteger | ByteCode::PushFloat => if room >= 4 {
            Some(a + 4)
        } else {
            None
        },
        ByteCode::GetLocalValue | ByteCode::SetLocalValue => if room >= 1 {
            Some(a + 1)
        } else {
            None
        },
        ByteCode::Function => if room >= 2 {
            Some(a + 2)
        } else {
            None
        },
        ByteCode::FunctionSignature => match string_end(p, a) {
            Some(b) => if p.len() - b >= 3 {
                Some(b + 3)
            } else {
                None
            },
            None => None,
        },
        ByteCode::Call => if room >= 3 {
            string_end(p, a + 3)
        } else {
            None
        },
        ByteCode::CallForeign => if room >= 2 {
            string_end(p, a + 2)
        } else {
            None
        },
        ByteCode::Jump => {
            if room < 2 {
                return None;
            }
            let offset = (((p[a] as u16) << 8u16) | (p[a + 1] as u16)) as i16;
            let target = ((a + 2) as i16) as i32 + offset as i32;
            if -32768 <= target && target <= 32767 {
                Some(a + 2)
            } else {
                None
            }
        },
        ByteCode::JumpIfTrue | ByteCode::JumpIfFalse => {
            if room < 2 {
                return None;
            }
            let offset = (((p[a] as u16) << 8u16) | (p[a + 1] as u16)) as i16;
            match (a + 2).checked_add(offset as usize) {
                Some(_) => Some(a + 2),
                None => None,
            }
        },
        _ => string_end(p, a),
    }
}

/// Whether `bytes` is a sequence of whole instructions, which is what `disassemble` asks of
/// its input.
pub fn decodes(bytes: &Vec<u8>) -> (r: bool)
    ensures
        r == decodes_from(bytes@, 0),
{
    let mut pc: usize = 0;
    while pc < bytes.len()
        invariant
            pc <= bytes.len(),
            decodes_from(bytes@, 0) == decodes_from(bytes@, pc as int),
        decreases bytes.len() - pc,
    {
        match instruction_end(bytes, pc) {
            Some(n) => {
                assert(pc < n);
                pc = n;
            },
            None => return false,
        }
    }
    true
}

/// How an arithmetic operation is named in a listing.
pub open spec fn operation_name(o: ArithmeticOperations) -> Seq<char> {
    match o {
        ArithmeticOperations::Addition => "add"@,
        ArithmeticOperations::Subtraction => "sub"@,
        ArithmeticOperations::Multiplication => "mult"@,
        ArithmeticOperations::Division => "div"@,
        ArithmeticOperations::Modulus => "mod"@,
    }
}

/// The instruction that the code of a one-instruction operator consists of.
pub open spec fn instruction_of(op: BinaryOperator) -> ByteCode {
    decode_opcode(binary_code(op)[0])->0
}

/// Distinct instructions are listed under distinct mnemonics, so a listing tells each
/// instruction apart.
pub proof fn law_mnemonics_distinct(a: ByteCode, b: ByteCode)
    requires
        plain_text(a) is Some,
        plain_text(a) == plain_text(b),
    ensures
        a == b,
{
    reveal_strlit("push_true");
    reveal_strlit("push_false");
    reveal_strlit("get_tag_name");
    reveal_strlit("get_tag_payload");
    reveal_strlit("int_add");
    reveal_strlit("int_sub");
    reveal_strlit("int_mult");
    reveal_strlit("int_div");
    reveal_strlit("int_mod");
    reveal_strlit("int_lt");
    reveal_strlit("int_lte");
    reveal_strlit("float_add");
    reveal_strlit("float_sub");
    reveal_strlit("float_mult");
    reveal_strlit("float_div");
    reveal_strlit("float_mod");
    reveal_strlit("float_lt");
    reveal_strlit("float_lte");
    reveal_strlit("str_concat");
    reveal_strlit("and");
    reveal_strlit("or");
    reveal_strlit("eq");
    reveal_strlit("neg");
    reveal_strlit("not");
    reveal_strlit("ret");
    let t = plain_text(a)->0;
    assert(t.len() == plain_text(b)->0.len());
    assert(t[0] == plain_text(b)->0[0]);
    assert(t.len() > 1 ==> t[1] == plain_text(b)->0[1]);
    assert(t.len() > 2 ==> t[2] == plain_text(b)->0[2]);
    assert(t.len() > 4 ==> t[4] == plain_text(b)->0[4]);
    assert(t.len() > 5 ==> t[5] == plain_text(b)->0[5]);
    assert(t.len() > 6 ==> t[6] == plain_text(b)->0[6]);
    assert(t.len() > 8 ==> t[8] == plain_text(b)->0[8]);
    assert(t.len() > 9 ==> t[9] == plain_text(b)->0[9]);
    assert(t.len() > 11 ==> t[11] == plain_text(b)->0[11]);
}

/// The instruction that integer or float arithmetic compiles to is listed as that arithmetic:
/// `int_` or `float_` and the operation's name (the instruction that subtracts integers is
/// `int_sub`); the comparisons below and below-or-equal are `lt` and `lte`.
pub proof fn law_operator_mnemonics(o: ArithmeticOperations)
    ensures
        plain_text(instruction_of(BinaryOperator::IntegerOperation(o))) == Some(
            "int_"@ + operation_name(o),
        ),
        plain_text(instruction_of(BinaryOperator::FloatOperation(o))) == Some(
            "float_"@ + operation_name(o),
        ),
        plain_text(instruction_of(BinaryOperator::IntegerComparison(Comparisons::LessThan)))
            == Some("int_"@ + "lt"@),
        plain_text(instruction_of(BinaryOperator::IntegerComparison(Comparisons::LessThanEqual)))
            == Some("int_"@ + "lte"@),
        plain_text(instruction_of(BinaryOperator::FloatComparison(Comparisons::LessThan)))
            == Some("float_"@ + "lt"@),
        plain_text(instruction_of(BinaryOperator::FloatComparison(Comparisons::LessThanEqual)))
            == Some("float_"@ + "lte"@),
{
    reveal_strlit("int_");
    reveal_strlit("float_");
    reveal_strlit("add");
    reveal_strlit("sub");
    reveal_strlit("mult");
    reveal_strlit("div");
    reveal_strlit("mod");
    reveal_strlit("lt");
    reveal_strlit("lte");
    reveal_strlit("int_add");
    reveal_strlit("int_sub");
    reveal_strlit("int_mult");
    reveal_strlit("int_div");
    reveal_strlit("int_mod");
    reveal_strlit("int_lt");
    reveal_strlit("int_lte");
    reveal_strlit("float_add");
    reveal_strlit("float_sub");
    reveal_strlit("float_mult");
    reveal_strlit("float_div");
    reveal_strlit("float_mod");
    reveal_strlit("float_lt");
    reveal_strlit("float_lte");
    assert("int_"@ + "lt"@ =~= "int_lt"@);
    assert("int_"@ + "lte"@ =~= "int_lte"@);
    assert("float_"@ + "lt"@ =~= "float_lt"@);
    assert("float_"@ + "lte"@ =~= "float_lte"@);
    assert("int_"@ + operation_name(o) =~= plain_text(instruction_of(BinaryOperator::IntegerOperation(o)))->0);
    assert("float_"@ + operation_name(o) =~= plain_text(instruction_of(BinaryOperator::FloatOperation(o)))->0);
}

} // verus!

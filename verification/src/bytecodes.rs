use vstd::prelude::*;

verus! {

/// The instructions of the virtual machine; each is written as one byte, its position in
/// this list.
#[derive(Debug, Clone, Copy, PartialEq, Eq, Structural)]
pub enum ByteCode {
    IntegerAddition,
    IntegerSubtraction,
    IntegerDivision,
    IntegerMultiplication,
    IntegerModulo,
    IntegerLessThan,
    IntegerLessThanEquals,
    FloatAddition,
    FloatSubtraction,
    FloatDivision,
    FloatMultiplication,
    FloatModulo,
    FloatLessThan,
    FloatLessThanEquals,
    StringConcat,
    BooleanAnd,
    BooleanOr,
    Equals,
    Negation,
    Not,
    GetLocalValue,
    SetLocalValue,
    GetContextValue,
    SetContextValue,
    PushTrue,
    PushFalse,
    PushFloat,
    PushInteger,
    PushString,
    PushSimpleTag,
    PushTag,
    GetTagName,
    GetTagPayload,
    FunctionSignature,
    FunctionChunk,
    Function,
    Return,
    Call,
    CallForeign,
    GetForeignValue,
    Jump,
    JumpIfTrue,
    JumpIfFalse,
}

/// Number of instructions: the bytes `0` up to this value (excluded) are opcodes.
pub const OPCODE_COUNT: u8 = 43;

/// The byte that encodes `code`.
pub open spec fn opcode(code: ByteCode) -> u8 {
    match code {
        ByteCode::IntegerAddition => 0,
        ByteCode::IntegerSubtraction => 1,
        ByteCode::IntegerDivision => 2,
        ByteCode::IntegerMultiplication => 3,
        ByteCode::IntegerModulo => 4,
        ByteCode::IntegerLessThan => 5,
        ByteCode::IntegerLessThanEquals => 6,
        ByteCode::FloatAddition => 7,
        ByteCode::FloatSubtraction => 8,
        ByteCode::FloatDivision => 9,
        ByteCode::FloatMultiplication => 10,
        ByteCode::FloatModulo => 11,
        ByteCode::FloatLessThan => 12,
        ByteCode::FloatLessThanEquals => 13,
        ByteCode::StringConcat => 14,
        ByteCode::BooleanAnd => 15,
        ByteCode::BooleanOr => 16,
        ByteCode::Equals => 17,
        ByteCode::Negation => 18,
        ByteCode::Not => 19,
        ByteCode::GetLocalValue => 20,
        ByteCode::SetLocalValue => 21,
        ByteCode::GetContextValue => 22,
        ByteCode::SetContextValue => 23,
        ByteCode::PushTrue => 24,
        ByteCode::PushFalse => 25,
        ByteCode::PushFloat => 26,
        ByteCode::PushInteger => 27,
        ByteCode::PushString => 28,
        ByteCode::PushSimpleTag => 29,
        ByteCode::PushTag => 30,
        ByteCode::GetTagName => 31,
        ByteCode::GetTagPayload => 32,
        ByteCode::FunctionSignature => 33,
        ByteCode::FunctionChunk => 34,
        ByteCode::Function => 35,
        ByteCode::Return => 36,
        ByteCode::Call => 37,
        ByteCode::CallForeign => 38,
        ByteCode::GetForeignValue => 39,
        ByteCode::Jump => 40,
        ByteCode::JumpIfTrue => 41,
        ByteCode::JumpIfFalse => 42,
    }
}

/// The instruction that `byte` encodes, if any.
pub open spec fn decode_opcode(byte: u8) -> Option<ByteCode> {
    match byte {
        0 => Some(ByteCode::IntegerAddition),
        1 => Some(ByteCode::IntegerSubtraction),
        2 => Some(ByteCode::IntegerDivision),
        3 => Some(ByteCode::IntegerMultiplication),
        4 => Some(ByteCode::IntegerModulo),
        5 => Some(ByteCode::IntegerLessThan),
        6 => Some(ByteCode::IntegerLessThanEquals),
        7 => Some(ByteCode::FloatAddition),
        8 => Some(ByteCode::FloatSubtraction),
        9 => Some(ByteCode::FloatDivision),
        10 => Some(ByteCode::FloatMultiplication),
        11 => Some(ByteCode::FloatModulo),
        12 => Some(ByteCode::FloatLessThan),
        13 => Some(ByteCode::FloatLessThanEquals),
        14 => Some(ByteCode::StringConcat),
        15 => Some(ByteCode::BooleanAnd),
        16 => Some(ByteCode::BooleanOr),
        17 => Some(ByteCode::Equals),
        18 => Some(ByteCode::Negation),
        19 => Some(ByteCode::Not),
        20 => Some(ByteCode::GetLocalValue),
        21 => Some(ByteCode::SetLocalValue),
        22 => Some(ByteCode::GetContextValue),
        23 => Some(ByteCode::SetContextValue),
        24 => Some(ByteCode::PushTrue),
        25 => Some(ByteCode::PushFalse),
        26 => Some(ByteCode::PushFloat),
        27 => Some(ByteCode::PushInteger),
        28 => Some(ByteCode::PushString),
        29 => Some(ByteCode::PushSimpleTag),
        30 => Some(ByteCode::PushTag),
        31 => Some(ByteCode::GetTagName),
        32 => Some(ByteCode::GetTagPayload),
        33 => Some(ByteCode::FunctionSignature),
        34 => Some(ByteCode::FunctionChunk),
        35 => Some(ByteCode::Function),
        36 => Some(ByteCode::Return),
        37 => Some(ByteCode::Call),
        38 => Some(ByteCode::CallForeign),
        39 => Some(ByteCode::GetForeignValue),
        40 => Some(ByteCode::Jump),
        41 => Some(ByteCode::JumpIfTrue),
        42 => Some(ByteCode::JumpIfFalse),
        _ => None,
    }
}

impl ByteCode {
    /// The byte that encodes this instruction.
    pub fn to_byte(&self) -> (r: u8)
        ensures
            r == opcode(*self),
    {
        match self {
        ByteCode::IntegerAddition => 0,
        ByteCode::IntegerSubtraction => 1,
        ByteCode::IntegerDivision => 2,
        ByteCode::IntegerMultiplication => 3,
        ByteCode::IntegerModulo => 4,
        ByteCode::IntegerLessThan => 5,
        ByteCode::IntegerLessThanEquals => 6,
        ByteCode::FloatAddition => 7,
        ByteCode::FloatSubtraction => 8,
        ByteCode::FloatDivision => 9,
        ByteCode::FloatMultiplication => 10,
        ByteCode::FloatModulo => 11,
        ByteCode::FloatLessThan => 12,
        ByteCode::FloatLessThanEquals => 13,
        ByteCode::StringConcat => 14,
        ByteCode::BooleanAnd => 15,
        ByteCode::BooleanOr => 16,
        ByteCode::Equals => 17,
        ByteCode::Negation => 18,
        ByteCode::Not => 19,
        ByteCode::GetLocalValue => 20,
        ByteCode::SetLocalValue => 21,
        ByteCode::GetContextValue => 22,
        ByteCode::SetContextValue => 23,
        ByteCode::PushTrue => 24,
        ByteCode::PushFalse => 25,
        ByteCode::PushFloat => 26,
        ByteCode::PushInteger => 27,
        ByteCode::PushString => 28,
        ByteCode::PushSimpleTag => 29,
        ByteCode::PushTag => 30,
        ByteCode::GetTagName => 31,
        ByteCode::GetTagPayload => 32,
        ByteCode::FunctionSignature => 33,
        ByteCode::FunctionChunk => 34,
        ByteCode::Function => 35,
        ByteCode::Return => 36,
        ByteCode::Call => 37,
        ByteCode::CallForeign => 38,
        ByteCode::GetForeignValue => 39,
        ByteCode::Jump => 40,
        ByteCode::JumpIfTrue => 41,
        ByteCode::JumpIfFalse => 42,
        }
    }

    /// The instruction that `byte` encodes; `None` for a byte that is no opcode.
    pub fn from_byte(byte: u8) -> (r: Option<ByteCode>)
        ensures
            r == decode_opcode(byte),
    {
        match byte {
        0 => Some(ByteCode::IntegerAddition),
        1 => Some(ByteCode::IntegerSubtraction),
        2 => Some(ByteCode::IntegerDivision),
        3 => Some(ByteCode::IntegerMultiplication),
        4 => Some(ByteCode::IntegerModulo),
        5 => Some(ByteCode::IntegerLessThan),
        6 => Some(ByteCode::IntegerLessThanEquals),
        7 => Some(ByteCode::FloatAddition),
        8 => Some(ByteCode::FloatSubtraction),
        9 => Some(ByteCode::FloatDivision),
        10 => Some(ByteCode::FloatMultiplication),
        11 => Some(ByteCode::FloatModulo),
        12 => Some(ByteCode::FloatLessThan),
        13 => Some(ByteCode::FloatLessThanEquals),
        14 => Some(ByteCode::StringConcat),
        15 => Some(ByteCode::BooleanAnd),
        16 => Some(ByteCode::BooleanOr),
        17 => Some(ByteCode::Equals),
        18 => Some(ByteCode::Negation),
        19 => Some(ByteCode::Not),
        20 => Some(ByteCode::GetLocalValue),
        21 => Some(ByteCode::SetLocalValue),
        22 => Some(ByteCode::GetContextValue),
        23 => Some(ByteCode::SetContextValue),
        24 => Some(ByteCode::PushTrue),
        25 => Some(ByteCode::PushFalse),
        26 => Some(ByteCode::PushFloat),
        27 => Some(ByteCode::PushInteger),
        28 => Some(ByteCode::PushString),
        29 => Some(ByteCode::PushSimpleTag),
        30 => Some(ByteCode::PushTag),
        31 => Some(ByteCode::GetTagName),
        32 => Some(ByteCode::GetTagPayload),
        33 => Some(ByteCode::FunctionSignature),
        34 => Some(ByteCode::FunctionChunk),
        35 => Some(ByteCode::Function),
        36 => Some(ByteCode::Return),
        37 => Some(ByteCode::Call),
        38 => Some(ByteCode::CallForeign),
        39 => Some(ByteCode::GetForeignValue),
        40 => Some(ByteCode::Jump),
        41 => Some(ByteCode::JumpIfTrue),
        42 => Some(ByteCode::JumpIfFalse),
            _ => None,
        }
    }
}

impl From<ByteCode> for u8 {
    fn from(c: ByteCode) -> (r: u8) {
        c.to_byte()
    }
}

impl vstd::std_specs::convert::FromSpecImpl<ByteCode> for u8 {
    open spec fn obeys_from_spec() -> bool {
        true
    }

    open spec fn from_spec(c: ByteCode) -> u8 {
        opcode(c)
    }
}

impl TryFrom<u8> for ByteCode {
    type Error = ();

    fn try_from(value: u8) -> (r: Result<Self, Self::Error>) {
        match ByteCode::from_byte(value) {
            Some(code) => Ok(code),
            None => Err(()),
        }
    }
}

impl vstd::std_specs::convert::TryFromSpecImpl<u8> for ByteCode {
    open spec fn obeys_try_from_spec() -> bool {
        true
    }

    open spec fn try_from_spec(value: u8) -> Result<Self, ()> {
        match decode_opcode(value) {
            Some(code) => Ok(code),
            None => Err(()),
        }
    }
}

/// Decoding the byte of an instruction gives the instruction back.
pub proof fn law_opcode_roundtrip(code: ByteCode)
    ensures
        decode_opcode(opcode(code)) == Some(code),
{
}

/// Only the bytes below `OPCODE_COUNT` are opcodes, and each decodes to the instruction whose
/// byte it is.
pub proof fn law_decode_opcode(byte: u8)
    ensures
        decode_opcode(byte) is Some <==> byte < OPCODE_COUNT,
        decode_opcode(byte) matches Some(code) ==> opcode(code) == byte,
{
}

} // verus!

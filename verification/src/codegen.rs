use std::collections::{HashMap, HashSet};

use vstd::prelude::*;

use crate::bytecodes::{opcode, ByteCode};

verus! {

/// The two bytes of `v` in big-endian order.
pub open spec fn be_i16(v: i16) -> Seq<u8> {
    seq![((v as u16) >> 8u16) as u8, ((v as u16) & 0xffu16) as u8]
}

/// The four bytes of `v` in big-endian order.
pub open spec fn be_i32(v: i32) -> Seq<u8> {
    seq![
        ((v as u32) >> 24u32) as u8,
        (((v as u32) >> 16u32) & 0xffu32) as u8,
        (((v as u32) >> 8u32) & 0xffu32) as u8,
        ((v as u32) & 0xffu32) as u8,
    ]
}

/// The `i16` whose big-endian bytes are `hi`, `lo`.
pub open spec fn i16_from_be(hi: u8, lo: u8) -> i16 {
    (((hi as u16) << 8u16) | (lo as u16)) as i16
}

/// The `i32` whose big-endian bytes are `b0` to `b3`.
pub open spec fn i32_from_be(b0: u8, b1: u8, b2: u8, b3: u8) -> i32 {
    (((b0 as u32) << 24u32) | ((b1 as u32) << 16u32) | ((b2 as u32) << 8u32) | (b3 as u32)) as i32
}

/// The encoding of a string operand: its byte length, kept to a byte, then its UTF-8 bytes.
pub open spec fn string_operand(s: Seq<char>) -> Seq<u8> {
    seq![(vstd::utf8::encode_utf8(s).len() % 256) as u8] + vstd::utf8::encode_utf8(s)
}

/// Reading back the big-endian bytes of an `i16` gives the `i16`.
pub proof fn law_i16_roundtrip(v: i16)
    ensures
        i16_from_be(be_i16(v)[0], be_i16(v)[1]) == v,
{
    let hi = ((v as u16) >> 8u16) as u8;
    let lo = ((v as u16) & 0xffu16) as u8;
    assert((((((v as u16) >> 8u16) as u8) as u16) << 8u16 | ((((v as u16) & 0xffu16) as u8)
        as u16)) as i16 == v) by (bit_vector);
}

/// Reading back the big-endian bytes of an `i32` gives the `i32`.
pub proof fn law_i32_roundtrip(v: i32)
    ensures
        i32_from_be(be_i32(v)[0], be_i32(v)[1], be_i32(v)[2], be_i32(v)[3]) == v,
{
    assert((((((v as u32) >> 24u32) as u8) as u32) << 24u32 | ((((((v as u32) >> 16u32)
        & 0xffu32) as u8) as u32) << 16u32) | ((((((v as u32) >> 8u32) & 0xffu32) as u8) as u32)
        << 8u32) | ((((v as u32) & 0xffu32) as u8) as u32)) as i32 == v) by (bit_vector);
}

/// A growing sequence of bytecode.
pub struct BytecodeBuilder {
    bytes: Vec<u8>,
}

impl View for BytecodeBuilder {
    type V = Seq<u8>;

    /// The bytes written so far.
    closed spec fn view(&self) -> Seq<u8> {
        self.bytes@
    }
}

impl BytecodeBuilder {
    /// A builder without bytes.
    pub fn new() -> (r: Self)
        ensures
            r@ == Seq::<u8>::empty(),
    {
        Self { bytes: Vec::new() }
    }

    /// The bytes written so far.
    pub fn bytes(&self) -> (r: &Vec<u8>)
        ensures
            r@ == self@,
    {
        &self.bytes
    }

    /// The bytes written, taken out of the builder.
    pub fn into_bytes(self) -> (r: Vec<u8>)
        ensures
            r@ == self@,
    {
        self.bytes
    }

    /// Appends one byte.
    pub fn add_byte(&mut self, byte: u8) -> (r: &mut Self)
        ensures
            r@ == old(self)@.push(byte),
            *final(self) == *final(r),
    {
        self.bytes.push(byte);
        self
    }

    /// Appends the byte of an instruction.
    pub fn add_op(&mut self, code: ByteCode) -> (r: &mut Self)
        ensures
            r@ == old(self)@.push(opcode(code)),
            *final(self) == *final(r),
    {
        self.bytes.push(code.into());
        self
    }

    /// Appends the bytes of `value`, in order.
    pub fn add_bytes<const COUNT: usize>(&mut self, value: &[u8; COUNT]) -> (r: &mut Self)
        ensures
            r@ == old(self)@ + value@,
            *final(self) == *final(r),
    {
        let mut i: usize = 0;
        while i < COUNT
            invariant
                i <= COUNT,
                value@.len() == COUNT,
                self.bytes@ == old(self).bytes@ + value@.take(i as int),
            decreases COUNT - i,
        {
            self.bytes.push(value[i]);
            i = i + 1;
            proof {
                assert(value@.take(i as int) =~= value@.take(i - 1).push(value@[i - 1]));
            }
        }
        proof {
            assert(value@.take(COUNT as int) =~= value@);
        }
        self
    }

    /// Appends the two big-endian bytes of `value`.
    pub fn add_i16(&mut self, value: &i16) -> (r: &mut Self)
        ensures
            r@ == old(self)@ + be_i16(*value),
            *final(self) == *final(r),
    {
        let u = *value as u16;
        let bytes: [u8; 2] = [(u >> 8) as u8, (u & 0xff) as u8];
        proof {
            assert(bytes@ =~= be_i16(*value));
        }
        self.add_bytes(&bytes)
    }

    /// Appends the four big-endian bytes of `value`.
    pub fn add_i32(&mut self, value: &i32) -> (r: &mut Self)
        ensures
            r@ == old(self)@ + be_i32(*value),
            *final(self) == *final(r),
    {
        let u = *value as u32;
        let bytes: [u8; 4] = [
            (u >> 24) as u8,
            ((u >> 16) & 0xff) as u8,
            ((u >> 8) & 0xff) as u8,
            (u & 0xff) as u8,
        ];
        proof {
            assert(bytes@ =~= be_i32(*value));
        }
        self.add_bytes(&bytes)
    }

    /// Appends the given bytes.
    pub fn add_byte_array(&mut self, bytes: &[u8]) -> (r: &mut Self)
        ensures
            r@ == old(self)@ + bytes@,
            *final(self) == *final(r),
    {
        let mut i: usize = 0;
        while i < bytes.len()
            invariant
                i <= bytes@.len(),
                self.bytes@ == old(self).bytes@ + bytes@.take(i as int),
            decreases bytes@.len() - i,
        {
            self.bytes.push(bytes[i]);
            i = i + 1;
            proof {
                assert(bytes@.take(i as int) =~= bytes@.take(i - 1).push(bytes@[i - 1]));
            }
        }
        proof {
            assert(bytes@.take(bytes@.len() as int) =~= bytes@);
        }
        self
    }

    /// Appends a string operand: the byte length of `value` as one byte (its low eight bits),
    /// then its UTF-8 bytes.
    pub fn add_string(&mut self, value: &str) -> (r: &mut Self)
        ensures
            r@ == old(self)@ + string_operand(value@),
            *final(self) == *final(r),
    {
        let bytes = value.as_bytes();
        let n = bytes.len();
        #[verifier::truncate]
        let length = n as u8;
        proof {
            assert(n as u8 == (n % 256) as u8) by (bit_vector);
            assert(length == (vstd::utf8::encode_utf8(value@).len() % 256) as u8);
        }
        let r = self.add_byte(length).add_byte_array(bytes);
        proof {
            assert(r@ =~= old(self)@ + string_operand(value@));
        }
        r
    }

    /// Appends a conditional jump with a zero offset to be patched; returns the position of
    /// its two offset bytes.
    pub fn add_jump_if_false(&mut self) -> (r: usize)
        requires
            old(self)@.len() + 3 <= usize::MAX,
        ensures
            final(self)@ == old(self)@.push(opcode(ByteCode::JumpIfFalse)) + seq![0u8, 0u8],
            r == old(self)@.len() + 1,
    {
        let bytes: [u8; 2] = [0, 0];
        self.add_op(ByteCode::JumpIfFalse).add_bytes(&bytes);
        proof {
            assert(bytes@ =~= seq![0u8, 0u8]);
        }
        self.bytes.len() - 2
    }

    /// Appends an unconditional jump with a zero offset to be patched; returns the position
    /// of its two offset bytes.
    pub fn add_unconditional_jump(&mut self) -> (r: usize)
        requires
            old(self)@.len() + 3 <= usize::MAX,
        ensures
            final(self)@ == old(self)@.push(opcode(ByteCode::Jump)) + seq![0u8, 0u8],
            r == old(self)@.len() + 1,
    {
        let bytes: [u8; 2] = [0, 0];
        self.add_op(ByteCode::Jump).add_bytes(&bytes);
        proof {
            assert(bytes@ =~= seq![0u8, 0u8]);
        }
        self.bytes.len() - 2
    }

    /// Appends two zero bytes to be patched; returns their position.
    pub fn get_patchable_i16_offset(&mut self) -> (r: usize)
        requires
            old(self)@.len() + 2 <= usize::MAX,
        ensures
            final(self)@ == old(self)@ + seq![0u8, 0u8],
            r == old(self)@.len(),
    {
        let bytes: [u8; 2] = [0, 0];
        self.add_bytes(&bytes);
        proof {
            assert(bytes@ =~= seq![0u8, 0u8]);
        }
        self.bytes.len() - 2
    }

    fn write_i16_at(&mut self, position: usize, value: i16)
        requires
            position + 2 <= old(self)@.len(),
        ensures
            final(self)@ == old(self)@.update(position as int, be_i16(value)[0]).update(
                position + 1,
                be_i16(value)[1],
            ),
    {
        let n = self.bytes.len();
        let u = value as u16;
        self.bytes.set(position, (u >> 8) as u8);
        self.bytes.set(position + 1, (u & 0xff) as u8);
    }

    /// Overwrites the two bytes at `patchable_bytes` with the big-endian bytes of `new_offset`.
    pub fn patch_i16_offset(&mut self, patchable_bytes: usize, new_offset: isize)
        requires
            patchable_bytes + 2 <= old(self)@.len(),
            i16::MIN <= new_offset <= i16::MAX,
        ensures
            final(self)@ == old(self)@.update(patchable_bytes as int, be_i16(new_offset as i16)[0]).update(
                patchable_bytes + 1,
                be_i16(new_offset as i16)[1],
            ),
    {
        self.write_i16_at(patchable_bytes, new_offset as i16);
    }

    /// Appends an instruction that stores the top of the stack in local `index`.
    pub fn add_set_local_value(&mut self, index: u8) -> (r: &mut Self)
        ensures
            r@ == old(self)@ + seq![opcode(ByteCode::SetLocalValue), index],
            *final(self) == *final(r),
    {
        let r = self.add_op(ByteCode::SetLocalValue).add_byte(index);
        proof {
            assert(r@ =~= old(self)@ + seq![opcode(ByteCode::SetLocalValue), index]);
        }
        r
    }

    /// Appends an instruction that pushes local `index`.
    pub fn add_get_local_value(&mut self, index: u8) -> (r: &mut Self)
        ensures
            r@ == old(self)@ + seq![opcode(ByteCode::GetLocalValue), index],
            *final(self) == *final(r),
    {
        let r = self.add_op(ByteCode::GetLocalValue).add_byte(index);
        proof {
            assert(r@ =~= old(self)@ + seq![opcode(ByteCode::GetLocalValue), index]);
        }
        r
    }

    /// Appends an instruction that pushes the context value `name`.
    pub fn add_get_context_value(&mut self, name: &str) -> (r: &mut Self)
        ensures
            r@ == old(self)@.push(opcode(ByteCode::GetContextValue)) + string_operand(name@),
            *final(self) == *final(r),
    {
        self.add_op(ByteCode::GetContextValue).add_string(name)
    }

    /// Appends an instruction that stores the top of the stack as the context value `name`.
    pub fn add_set_context_value(&mut self, name: &str) -> (r: &mut Self)
        ensures
            r@ == old(self)@.push(opcode(ByteCode::SetContextValue)) + string_operand(name@),
            *final(self) == *final(r),
    {
        self.add_op(ByteCode::SetContextValue).add_string(name)
    }

    /// Patches the jump whose offset bytes start at `byte_offset` to land on the next byte to
    /// be written: the offset counts the bytes after the offset bytes.
    pub fn patch_jump_to_current_byte(&mut self, byte_offset: usize)
        requires
            byte_offset + 2 <= old(self)@.len(),
            old(self)@.len() - (byte_offset + 2) <= i16::MAX,
        ensures
            final(self)@ == old(self)@.update(
                byte_offset as int,
                be_i16((old(self)@.len() - (byte_offset + 2)) as i16)[0],
            ).update(byte_offset + 1, be_i16((old(self)@.len() - (byte_offset + 2)) as i16)[1]),
    {
        let jump_instruction_bytes: usize = 2;
        let jump_offset = self.bytes.len() - (byte_offset + jump_instruction_bytes);
        self.write_i16_at(byte_offset, jump_offset as i16);
    }
}

/// The code being generated for one function body, with the names in scope and their local
/// slots.
pub struct Scope {
    pub bytecode: BytecodeBuilder,
    pub environment: HashMap<String, u8>,
    pub locals: HashSet<String>,
}

impl Scope {
    /// A scope without code and without names.
    pub fn new() -> (r: Self)
        ensures
            r.bytecode@ == Seq::<u8>::empty(),
            r.environment@ == Map::<String, u8>::empty(),
            r.locals@ == Set::<String>::empty(),
    {
        Self { bytecode: BytecodeBuilder::new(), environment: HashMap::new(), locals: HashSet::new() }
    }

    /// The scope of a function body declared in this scope: no code yet, the same names in
    /// scope, and no locals of its own.
    pub fn function(&mut self) -> (r: Self)
        ensures
            r.bytecode@ == Seq::<u8>::empty(),
            r.environment@ == old(self).environment@,
            r.locals@ == Set::<String>::empty(),
            *final(self) == *old(self),
    {
        Self {
            bytecode: BytecodeBuilder::new(),
            environment: self.environment.clone(),
            locals: HashSet::new(),
        }
    }
}

} // verus!
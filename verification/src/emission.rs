use vstd::prelude::*;

use crate::bytecodes::{ByteCode, opcode};
use crate::codegen::{be_i16, be_i32, i32_from_be, law_i32_roundtrip, string_operand};
use crate::errors::Error;
use crate::expressions::{
    Arg, Arm, ArithmeticOperations, BinaryOperator, BooleanOperations, Comparisons,
    EqualityOperations, Node, Pattern, StringOperations, UnaryOperator, Val,
};
use crate::tokens::Token;

verus! {

/// What the host offers while code is generated: the names of its values, the index of each
/// of its functions, and the bits of each float literal.
pub struct Host {
    pub values: Set<Seq<char>>,
    pub functions: Map<Seq<char>, u8>,
    pub float_bits: spec_fn(Seq<char>) -> u32,
}

/// The code of one function: its name, its number of parameters and its bytes.
pub struct Chunk {
    pub name: Seq<char>,
    pub local_count: u8,
    pub bytes: Seq<u8>,
}

/// Code generation so far: the bytes of the current function, the local slot of each name
/// in scope, the names that are locals of this function, the function chunks and the errors.
pub struct CState {
    pub bytes: Seq<u8>,
    pub env: Map<Seq<char>, u8>,
    pub locals: Seq<Seq<char>>,
    pub chunks: Seq<Chunk>,
    pub errors: Seq<Error>,
}

/// `st` with `more` appended to its bytes.
pub open spec fn put(st: CState, more: Seq<u8>) -> CState {
    CState { bytes: st.bytes + more, ..st }
}

/// The locals with `name` added, unless it is one already.
pub open spec fn with_local(locals: Seq<Seq<char>>, name: Seq<char>) -> Seq<Seq<char>> {
    if locals.contains(name) {
        locals
    } else {
        locals.push(name)
    }
}

/// The next local slot: the number of locals, kept to a byte.
pub open spec fn next_slot(st: CState) -> u8 {
    (st.locals.len() % 256) as u8
}

/// The number of UTF-8 bytes of `s`.
pub open spec fn utf8_len(s: Seq<char>) -> int {
    vstd::utf8::encode_utf8(s).len() as int
}

/// The bytes of a binary operator.
pub open spec fn binary_code(op: BinaryOperator) -> Seq<u8> {
    match op {
        BinaryOperator::IntegerOperation(a) => seq![opcode(match a {
            ArithmeticOperations::Addition => ByteCode::IntegerAddition,
            ArithmeticOperations::Subtraction => ByteCode::IntegerSubtraction,
            ArithmeticOperations::Multiplication => ByteCode::IntegerMultiplication,
            ArithmeticOperations::Division => ByteCode::IntegerDivision,
            ArithmeticOperations::Modulus => ByteCode::IntegerModulo,
        })],
        BinaryOperator::FloatOperation(a) => seq![opcode(match a {
            ArithmeticOperations::Addition => ByteCode::FloatAddition,
            ArithmeticOperations::Subtraction => ByteCode::FloatSubtraction,
            ArithmeticOperations::Multiplication => ByteCode::FloatMultiplication,
            ArithmeticOperations::Division => ByteCode::FloatDivision,
            ArithmeticOperations::Modulus => ByteCode::FloatModulo,
        })],
        BinaryOperator::BooleanOperation(b) => seq![opcode(match b {
            BooleanOperations::And => ByteCode::BooleanAnd,
            BooleanOperations::Or => ByteCode::BooleanOr,
        })],
        BinaryOperator::StringOperation(_) => seq![opcode(ByteCode::StringConcat)],
        BinaryOperator::IntegerComparison(c) => match c {
            Comparisons::LessThan => seq![opcode(ByteCode::IntegerLessThan)],
            Comparisons::LessThanEqual => seq![opcode(ByteCode::IntegerLessThanEquals)],
            Comparisons::GreaterThan => seq![
                opcode(ByteCode::IntegerLessThanEquals),
                opcode(ByteCode::Not),
            ],
            Comparisons::GreaterThanEqual => seq![
                opcode(ByteCode::IntegerLessThan),
                opcode(ByteCode::Not),
            ],
        },
        BinaryOperator::FloatComparison(c) => match c {
            Comparisons::LessThan => seq![opcode(ByteCode::FloatLessThan)],
            Comparisons::LessThanEqual => seq![opcode(ByteCode::FloatLessThanEquals)],
            Comparisons::GreaterThan => seq![
                opcode(ByteCode::FloatLessThanEquals),
                opcode(ByteCode::Not),
            ],
            Comparisons::GreaterThanEqual => seq![
                opcode(ByteCode::FloatLessThan),
                opcode(ByteCode::Not),
            ],
        },
        BinaryOperator::Equality(e) => match e {
            EqualityOperations::Equal => seq![opcode(ByteCode::Equals)],
            EqualityOperations::NotEqual => seq![opcode(ByteCode::Equals), opcode(ByteCode::Not)],
        },
    }
}

/// `bytes` with the jump whose offset bytes start at `at` patched to land on the end; `None`
/// where the offset does not fit an `i16`.
pub open spec fn patched(bytes: Seq<u8>, at: int) -> Option<Seq<u8>> {
    let offset = bytes.len() - (at + 2);
    if !(0 <= at && at + 2 <= bytes.len()) || offset > i16::MAX {
        None
    } else {
        Some(bytes.update(at, be_i16(offset as i16)[0]).update(at + 1, be_i16(offset as i16)[1]))
    }
}

/// `st` with each jump of `ats` patched to land on the end, in order.
pub open spec fn patch_all(st: CState, ats: Seq<int>) -> Option<CState>
    decreases ats.len(),
{
    if ats.len() == 0 {
        Some(st)
    } else {
        match patched(st.bytes, ats[0]) {
            None => None,
            Some(b) => patch_all(CState { bytes: b, ..st }, ats.subrange(1, ats.len() as int)),
        }
    }
}

/// `st` with a jump of kind `code` appended, its offset to be patched, and where its offset
/// bytes start; `None` where the bytes would not fit a `usize`.
pub open spec fn with_jump(st: CState, code: ByteCode) -> Option<(CState, int)> {
    if st.bytes.len() + 3 > usize::MAX {
        None
    } else {
        Some((put(st, seq![opcode(code), 0u8, 0u8]), st.bytes.len() + 1int))
    }
}

/// The code of an expression appended to `st`; `None` where code generation panics.
pub open spec fn emit_step(n: Node, h: Host, st: CState) -> Option<CState>
    decreases n, 0int,
{
    match n {
        Node::Value(v, token) => match v {
            Val::Boolean(b) => Some(put(st, seq![opcode(if b { ByteCode::PushTrue } else { ByteCode::PushFalse })])),
            Val::Integer(i) => Some(put(st, seq![opcode(ByteCode::PushInteger)] + be_i32(i))),
            Val::Float(t) => Some(put(st, seq![opcode(ByteCode::PushFloat)] + be_i32((h.float_bits)(t) as i32))),
            Val::String(s) => if utf8_len(s) > 255 {
                None
            } else {
                Some(put(st, seq![opcode(ByteCode::PushString)] + string_operand(s)))
            },
            Val::Function(params, body) => p_function(None, params, *body, h, st),
        },
        Node::Grouping(e) => p_emit(*e, h, st),
        Node::Block(es) => match p_emit_all(es, h, st) {
            None => None,
            Some(s1) => Some(CState { env: st.env, locals: st.locals, ..s1 }),
        },
        Node::Identifier(name) => {
            let lexeme = name.lexeme@;
            if h.values.contains(lexeme) {
                let s1 = if utf8_len(lexeme) > 255 {
                    CState { errors: st.errors.push(Error::FunctionNameTooLong { token: name }), ..st }
                } else {
                    st
                };
                Some(put(s1, seq![opcode(ByteCode::GetForeignValue)] + string_operand(lexeme)))
            } else if st.env.contains_key(lexeme) {
                Some(put(st, seq![opcode(ByteCode::GetLocalValue), st.env[lexeme]]))
            } else {
                None
            }
        },
        Node::Call(name, args) => {
            let lexeme = name.lexeme@;
            let count = (args.len() % 256) as u8;
            match p_emit_args(args, h, st) {
                None => None,
                Some(s1) => {
                    let s2: Option<CState> = if h.functions.contains_key(lexeme) {
                        Some(put(s1, seq![opcode(ByteCode::CallForeign), h.functions[lexeme], count]))
                    } else if s1.env.contains_key(lexeme) {
                        Some(
                            put(
                                s1,
                                seq![
                                    opcode(ByteCode::Call),
                                    count,
                                    if s1.locals.contains(lexeme) { 0u8 } else { 1u8 },
                                    s1.env[lexeme],
                                ],
                            ),
                        )
                    } else {
                        None
                    };
                    match s2 {
                        None => None,
                        Some(s2) => if utf8_len(lexeme) > 255 {
                            None
                        } else {
                            Some(put(s2, string_operand(lexeme)))
                        },
                    }
                },
            }
        },
        Node::Assignment(name, _, e) => {
            let lexeme = name.lexeme@;
            match *e {
                Node::Value(Val::Function(params, body), _) => {
                    let slot = next_slot(st);
                    let s1 = CState { env: st.env.insert(lexeme, slot), locals: with_local(st.locals, lexeme), ..st };
                    match p_function(Some(name), params, *body, h, s1) {
                        None => None,
                        Some(s2) => Some(put(s2, seq![opcode(ByteCode::SetLocalValue), slot])),
                    }
                },
                _ => match p_emit(*e, h, st) {
                    None => None,
                    Some(s1) => {
                        let slot = next_slot(s1);
                        let s2 = CState { env: s1.env.insert(lexeme, slot), locals: with_local(s1.locals, lexeme), ..s1 };
                        Some(put(s2, seq![opcode(ByteCode::SetLocalValue), slot]))
                    },
                },
            }
        },
        Node::Unary(op, _, e) => match p_emit(*e, h, st) {
            None => None,
            Some(s1) => Some(put(s1, seq![opcode(match op {
                UnaryOperator::Negation => ByteCode::Negation,
                UnaryOperator::Not => ByteCode::Not,
            })])),
        },
        Node::Binary(l, op, _, r) => match p_emit(*l, h, st) {
            None => None,
            Some(s1) => match p_emit(*r, h, s1) {
                None => None,
                Some(s2) => Some(put(s2, binary_code(op))),
            },
        },
        Node::Is(e, arms) => {
            let subject: Option<(u8, CState)> = match *e {
                Node::Identifier(name) => if st.env.contains_key(name.lexeme@) {
                    Some((st.env[name.lexeme@], st))
                } else {
                    None
                },
                _ => match p_emit(*e, h, st) {
                    None => None,
                    Some(s1) => Some((next_slot(s1), put(s1, seq![opcode(ByteCode::SetLocalValue), next_slot(s1)]))),
                },
            };
            match subject {
                None => None,
                Some((slot, s1)) => match p_emit_arms(arms, slot, arms.len() as int, h, s1, Seq::empty()) {
                    None => None,
                    Some((s2, ends)) => patch_all(s2, ends),
                },
            }
        },
    }
}

/// What `emit_step` gives; closed, so that each use unfolds it one step at a time.
pub closed spec fn p_emit(n: Node, h: Host, st: CState) -> Option<CState>
    decreases n, 1int,
{
    emit_step(n, h, st)
}

/// The code of each of `es`, in order.
pub open spec fn emit_all_step(es: Seq<Node>, h: Host, st: CState) -> Option<CState>
    decreases es, 0int,
{
    if es.len() == 0 {
        Some(st)
    } else {
        match p_emit(es[0], h, st) {
            None => None,
            Some(s1) => p_emit_all(es.subrange(1, es.len() as int), h, s1),
        }
    }
}

/// What `emit_all_step` gives; closed, so that each use unfolds it one step at a time.
pub closed spec fn p_emit_all(es: Seq<Node>, h: Host, st: CState) -> Option<CState>
    decreases es, 1int,
{
    emit_all_step(es, h, st)
}

/// The code of each call argument, in order.
pub open spec fn emit_args_step(args: Seq<Arg>, h: Host, st: CState) -> Option<CState>
    decreases args, 0int,
{
    if args.len() == 0 {
        Some(st)
    } else {
        match p_emit(args[0].node, h, st) {
            None => None,
            Some(s1) => p_emit_args(args.subrange(1, args.len() as int), h, s1),
        }
    }
}

/// What `emit_args_step` gives; closed, so that each use unfolds it one step at a time.
pub closed spec fn p_emit_args(args: Seq<Arg>, h: Host, st: CState) -> Option<CState>
    decreases args, 1int,
{
    emit_args_step(args, h, st)
}

/// The code of the arms of an `is` expression whose subject is in local `slot`, the first of
/// `arms` being arm `total - arms.len()` of `total`; `ends` are the jumps to the end so far.
/// Gives the state and the jumps to the end, still to be patched.
pub open spec fn emit_arms_step(arms: Seq<Arm>, slot: u8, total: int, h: Host, st: CState, ends: Seq<int>) -> Option<(CState, Seq<int>)>
    decreases arms, 0int,
{
    if arms.len() == 0 {
        Some((st, ends))
    } else {
        let arm = arms[0];
        let pattern: Option<(CState, Seq<int>)> = match arm.pattern {
            Pattern::Expression(p) => match p_emit(p, h, put(st, seq![opcode(ByteCode::GetLocalValue), slot])) {
                None => None,
                Some(s1) => match with_jump(put(s1, seq![opcode(ByteCode::Equals)]), ByteCode::JumpIfFalse) {
                    None => None,
                    Some((s2, at)) => Some((s2, seq![at])),
                },
            },
            Pattern::Capture(id, cond) => {
                let s1 = CState { env: st.env.insert(id.lexeme@, slot), locals: with_local(st.locals, id.lexeme@), ..st };
                match cond {
                    None => Some((s1, Seq::empty())),
                    Some(c) => match p_emit(c, h, s1) {
                        None => None,
                        Some(s2) => match with_jump(s2, ByteCode::JumpIfFalse) {
                            None => None,
                            Some((s3, at)) => Some((s3, seq![at])),
                        },
                    },
                }
            },
            Pattern::Default => Some((st, Seq::empty())),
        };
        match pattern {
            None => None,
            Some((s1, nexts)) => match p_emit(arm.block, h, s1) {
                None => None,
                Some(s2) => {
                    let last = arms.len() == 1;
                    let jumped: Option<(CState, Seq<int>)> = if last {
                        Some((s2, ends))
                    } else {
                        match with_jump(s2, ByteCode::Jump) {
                            None => None,
                            Some((s3, at)) => Some((s3, ends.push(at))),
                        }
                    };
                    match jumped {
                        None => None,
                        Some((s3, ends2)) => match patch_all(s3, nexts) {
                            None => None,
                            Some(s4) => p_emit_arms(arms.subrange(1, arms.len() as int), slot, total, h, s4, ends2),
                        },
                    }
                },
            },
        }
    }
}

/// What `emit_arms_step` gives; closed, so that each use unfolds it one step at a time.
pub closed spec fn p_emit_arms(arms: Seq<Arm>, slot: u8, total: int, h: Host, st: CState, ends: Seq<int>) -> Option<(CState, Seq<int>)>
    decreases arms, 1int,
{
    emit_arms_step(arms, slot, total, h, st, ends)
}

/// The environment of a function body: each parameter in its slot, from `i` on.
pub open spec fn bind_params(params: Seq<Token>, i: int, st: CState) -> CState
    decreases params.len() - i,
{
    if i >= params.len() || i < 0 {
        st
    } else {
        bind_params(
            params,
            i + 1,
            CState {
                env: st.env.insert(params[i].lexeme@, i as u8),
                locals: with_local(st.locals, params[i].lexeme@),
                ..st
            },
        )
    }
}

/// A function value: its instruction appended to `st`, and its body generated into a chunk
/// of its own, named by `name` if it has one.
pub open spec fn function_step(name: Option<Token>, params: Seq<Token>, body: Node, h: Host, st: CState) -> Option<CState>
    decreases body, 2int,
{
    if params.len() > 255 || st.chunks.len() >= 255 {
        None
    } else {
        let s1 = put(st, seq![opcode(ByteCode::Function), st.chunks.len() as u8, params.len() as u8]);
        let lexeme = match name {
            Some(t) => t.lexeme@,
            None => "(unnamed)"@,
        };
        let index = s1.chunks.len() as int;
        let inner = CState {
            bytes: seq![opcode(ByteCode::FunctionChunk)] + string_operand(lexeme),
            env: s1.env,
            locals: Seq::empty(),
            chunks: s1.chunks.push(Chunk { name: lexeme, local_count: params.len() as u8, bytes: Seq::empty() }),
            errors: s1.errors,
        };
        match p_emit(body, h, bind_params(params, 0, inner)) {
            None => None,
            Some(done) => {
                let code = done.bytes.push(opcode(ByteCode::Return));
                Some(CState {
                    chunks: done.chunks.update(index, Chunk { bytes: code, ..done.chunks[index] }),
                    errors: done.errors,
                    ..s1
                })
            },
        }
    }
}

/// What `function_step` gives; closed, so that each use unfolds it one step at a time.
pub closed spec fn p_function(name: Option<Token>, params: Seq<Token>, body: Node, h: Host, st: CState) -> Option<CState>
    decreases body, 3int,
{
    function_step(name, params, body, h, st)
}

/// Where the code of chunk `k` starts, the code of the chunks before it following `base`.
pub open spec fn chunk_offset(chunks: Seq<Chunk>, k: int, base: int) -> int
    decreases k,
{
    if k <= 0 {
        base
    } else {
        chunk_offset(chunks, k - 1, base) + chunks[k - 1].bytes.len()
    }
}

/// The signature of a chunk whose code starts at `offset`: its name, its number of
/// parameters and its offset.
pub open spec fn signature(c: Chunk, offset: int) -> Seq<u8> {
    seq![opcode(ByteCode::FunctionSignature)] + string_operand(c.name) + seq![c.local_count]
        + be_i16(offset as i16)
}

/// The number of bytes of the signatures of the first `k` chunks.
pub open spec fn signatures_len(chunks: Seq<Chunk>, k: int) -> int
    decreases k,
{
    if k <= 0 {
        0
    } else {
        signatures_len(chunks, k - 1) + 5 + utf8_len(chunks[k - 1].name)
    }
}

/// The signatures of the first `k` chunks, the code of the chunks following `base`.
pub open spec fn signatures(chunks: Seq<Chunk>, k: int, base: int) -> Seq<u8>
    decreases k,
{
    if k <= 0 {
        Seq::empty()
    } else {
        signatures(chunks, k - 1, base) + signature(chunks[k - 1], chunk_offset(chunks, k - 1, base))
    }
}

/// The code of the first `k` chunks, one after the other.
pub open spec fn bodies(chunks: Seq<Chunk>, k: int) -> Seq<u8>
    decreases k,
{
    if k <= 0 {
        Seq::empty()
    } else {
        bodies(chunks, k - 1) + chunks[k - 1].bytes
    }
}

/// The program's bytecode: the signatures of the chunks, the main code, then the code of
/// each chunk; `None` where the start of a chunk's code does not fit an `i16`.
pub open spec fn link(main: Seq<u8>, chunks: Seq<Chunk>) -> Option<Seq<u8>> {
    let n = chunks.len() as int;
    let base = code_start(main, chunks);
    if overflows(chunks, base) {
        None
    } else {
        Some(signatures(chunks, n, base) + main + bodies(chunks, n))
    }
}

/// Where the code of the first chunk starts: after the signatures and the main code.
pub open spec fn code_start(main: Seq<u8>, chunks: Seq<Chunk>) -> int {
    signatures_len(chunks, chunks.len() as int) + main.len()
}

/// Whether the code of some chunk starts beyond what an `i16` holds.
pub open spec fn overflows(chunks: Seq<Chunk>, base: int) -> bool {
    exists|k: int| 0 <= k < chunks.len() && #[trigger] chunk_offset(chunks, k, base) > i16::MAX
}

/// Generation of a whole program: its expressions in a main chunk, then linked. `None`
/// where generation panics; the errors where it reported some; else the bytecode.
pub open spec fn program_code(es: Seq<Node>, h: Host) -> Option<Result<Seq<u8>, Seq<Error>>> {
    let start = CState {
        bytes: seq![opcode(ByteCode::FunctionChunk)] + string_operand("main"@),
        env: Map::empty(),
        locals: Seq::empty(),
        chunks: Seq::empty(),
        errors: Seq::empty(),
    };
    match p_emit_all(es, h, start) {
        None => None,
        Some(st) => if st.errors.len() > 0 {
            Some(Err(st.errors))
        } else {
            match link(st.bytes.push(opcode(ByteCode::Return)), st.chunks) {
                None => None,
                Some(b) => Some(Ok(b)),
            }
        },
    }
}

proof fn lemma_signatures_len(chunks: Seq<Chunk>, k: int, base: int)
    requires
        0 <= k <= chunks.len(),
    ensures
        signatures(chunks, k, base).len() == signatures_len(chunks, k),
    decreases k,
{
    if k > 0 {
        lemma_signatures_len(chunks, k - 1, base);
    }
}

proof fn lemma_offset_is_bodies(chunks: Seq<Chunk>, k: int, base: int)
    requires
        0 <= k <= chunks.len(),
    ensures
        chunk_offset(chunks, k, base) == base + bodies(chunks, k).len(),
    decreases k,
{
    if k > 0 {
        lemma_offset_is_bodies(chunks, k - 1, base);
    }
}

proof fn lemma_bodies_hold(chunks: Seq<Chunk>, n: int, k: int)
    requires
        0 <= k < n <= chunks.len(),
    ensures
        bodies(chunks, n).subrange(
            bodies(chunks, k).len() as int,
            (bodies(chunks, k).len() + chunks[k].bytes.len()) as int,
        ) == chunks[k].bytes,
        bodies(chunks, k).len() + chunks[k].bytes.len() <= bodies(chunks, n).len(),
    decreases n,
{
    if k == n - 1 {
        assert(bodies(chunks, n).subrange(
            bodies(chunks, k).len() as int,
            (bodies(chunks, k).len() + chunks[k].bytes.len()) as int,
        ) =~= chunks[k].bytes);
    } else {
        lemma_bodies_hold(chunks, n - 1, k);
        assert(bodies(chunks, n).subrange(
            bodies(chunks, k).len() as int,
            (bodies(chunks, k).len() + chunks[k].bytes.len()) as int,
        ) =~= bodies(chunks, n - 1).subrange(
            bodies(chunks, k).len() as int,
            (bodies(chunks, k).len() + chunks[k].bytes.len()) as int,
        ));
    }
}

proof fn lemma_signatures_hold(chunks: Seq<Chunk>, n: int, k: int, base: int)
    requires
        0 <= k < n <= chunks.len(),
    ensures
        signatures(chunks, n, base).subrange(signatures_len(chunks, k), signatures_len(chunks, k + 1))
            == signature(chunks[k], chunk_offset(chunks, k, base)),
        signatures_len(chunks, k + 1) <= signatures(chunks, n, base).len(),
    decreases n,
{
    lemma_signatures_len(chunks, n, base);
    lemma_signatures_len(chunks, n - 1, base);
    lemma_signatures_len(chunks, k, base);
    if k == n - 1 {
        assert(signatures(chunks, n, base).subrange(signatures_len(chunks, k), signatures_len(chunks, k + 1))
            =~= signature(chunks[k], chunk_offset(chunks, k, base)));
    } else {
        lemma_signatures_hold(chunks, n - 1, k, base);
        assert(signatures(chunks, n, base).subrange(signatures_len(chunks, k), signatures_len(chunks, k + 1))
            =~= signatures(chunks, n - 1, base).subrange(signatures_len(chunks, k), signatures_len(chunks, k + 1)));
    }
}

/// Linking lays a program out as its table of signatures says: the main code follows the
/// signatures, each chunk's signature records where its code starts, and its code is there.
pub proof fn law_link_layout(main: Seq<u8>, chunks: Seq<Chunk>, k: int)
    requires
        link(main, chunks) is Some,
        0 <= k < chunks.len(),
    ensures
        ({
            let b = link(main, chunks)->0;
            let n = chunks.len() as int;
            let start = chunk_offset(chunks, k, code_start(main, chunks));
            &&& b.subrange(signatures_len(chunks, n), code_start(main, chunks)) == main
            &&& b.subrange(signatures_len(chunks, k), signatures_len(chunks, k + 1))
                == signature(chunks[k], start)
            &&& start <= i16::MAX
            &&& b.subrange(start, start + chunks[k].bytes.len()) == chunks[k].bytes
        }),
{
    let n = chunks.len() as int;
    let base = code_start(main, chunks);
    let sigs = signatures(chunks, n, base);
    let b = sigs + main + bodies(chunks, n);
    assert(link(main, chunks)->0 == b);
    lemma_signatures_len(chunks, n, base);
    lemma_signatures_len(chunks, k, base);
    lemma_signatures_len(chunks, k + 1, base);
    lemma_signatures_hold(chunks, n, k, base);
    lemma_offset_is_bodies(chunks, k, base);
    lemma_bodies_hold(chunks, n, k);
    assert(b.subrange(signatures_len(chunks, n), base) =~= main);
    assert(b.subrange(signatures_len(chunks, k), signatures_len(chunks, k + 1))
        =~= sigs.subrange(signatures_len(chunks, k), signatures_len(chunks, k + 1)));
    let start = chunk_offset(chunks, k, base);
    assert(b.subrange(start, start + chunks[k].bytes.len()) =~= bodies(chunks, n).subrange(
        bodies(chunks, k).len() as int,
        (bodies(chunks, k).len() + chunks[k].bytes.len()) as int,
    ));
}

/// `p_emit` is `emit_step`.
pub proof fn unfold_p_emit(n: Node, h: Host, st: CState)
    ensures
        p_emit(n, h, st) == emit_step(n, h, st),
{
}

/// `p_emit_all` is `emit_all_step`.
pub proof fn unfold_p_emit_all(es: Seq<Node>, h: Host, st: CState)
    ensures
        p_emit_all(es, h, st) == emit_all_step(es, h, st),
{
}

/// `p_emit_args` is `emit_args_step`.
pub proof fn unfold_p_emit_args(args: Seq<Arg>, h: Host, st: CState)
    ensures
        p_emit_args(args, h, st) == emit_args_step(args, h, st),
{
}

/// `p_emit_arms` is `emit_arms_step`.
pub proof fn unfold_p_emit_arms(arms: Seq<Arm>, slot: u8, total: int, h: Host, st: CState, ends: Seq<int>)
    ensures
        p_emit_arms(arms, slot, total, h, st, ends) == emit_arms_step(arms, slot, total, h, st, ends),
{
}

/// `p_function` is `function_step`.
pub proof fn unfold_p_function(name: Option<Token>, params: Seq<Token>, body: Node, h: Host, st: CState)
    ensures
        p_function(name, params, body, h, st) == function_step(name, params, body, h, st),
{
}

/// A value on the machine's stack, as far as the binary operators reach: an integer, a float
/// (standing for a number of the host's float arithmetic), a boolean or a text.
pub enum Datum {
    Int(int),
    Float(int),
    Bool(bool),
    Text(Seq<char>),
}

/// Float arithmetic as a host computes it: its operations and its two comparisons.
pub struct FloatMath {
    pub add: spec_fn(int, int) -> int,
    pub sub: spec_fn(int, int) -> int,
    pub mul: spec_fn(int, int) -> int,
    pub div: spec_fn(int, int) -> int,
    pub rem: spec_fn(int, int) -> int,
    pub lt: spec_fn(int, int) -> bool,
    pub le: spec_fn(int, int) -> bool,
    pub neg: spec_fn(int) -> int,
}

/// Whether the comparisons of `fm` order its numbers totally: `x <= y` exactly when not
/// `y < x` (as IEEE floats do but for NaN).
pub open spec fn totally_ordered(fm: FloatMath) -> bool {
    forall|x: int, y: int| #[trigger] (fm.le)(x, y) == !(fm.lt)(y, x)
}

/// The absolute value of `a`.
pub open spec fn magnitude(a: int) -> int {
    if a < 0 {
        -a
    } else {
        a
    }
}

/// `a` divided by `b`, rounded toward zero, as integer division in Rust does.
pub open spec fn quotient(a: int, b: int) -> int {
    if (a < 0) == (b < 0) {
        magnitude(a) / magnitude(b)
    } else {
        -(magnitude(a) / magnitude(b))
    }
}

/// What is left of `a` after dividing by `b`, with the sign of `a`, as `%` in Rust gives it.
pub open spec fn remainder(a: int, b: int) -> int {
    a - b * quotient(a, b)
}

/// The stack after the instruction `code` runs on `stack`, whose top is its last entry;
/// `None` for an instruction outside the boolean pushes and the binary, negating and
/// inverting ones, or operands it does not
/// take. A binary instruction takes the two top entries, the left operand below the right.
pub open spec fn execute(code: u8, stack: Seq<Datum>, fm: FloatMath) -> Option<Seq<Datum>> {
    let n = stack.len() as int;
    if code == opcode(ByteCode::PushTrue) {
        Some(stack.push(Datum::Bool(true)))
    } else if code == opcode(ByteCode::PushFalse) {
        Some(stack.push(Datum::Bool(false)))
    } else if code == opcode(ByteCode::Not) {
        if n >= 1 {
            match stack[n - 1] {
                Datum::Bool(x) => Some(stack.drop_last().push(Datum::Bool(!x))),
                _ => None,
            }
        } else {
            None
        }
    } else if code == opcode(ByteCode::Negation) {
        if n >= 1 {
            match stack[n - 1] {
                Datum::Int(x) => Some(stack.drop_last().push(Datum::Int(-x))),
                Datum::Float(x) => Some(stack.drop_last().push(Datum::Float((fm.neg)(x)))),
                _ => None,
            }
        } else {
            None
        }
    } else if n < 2 {
        None
    } else {
        let rest = stack.subrange(0, n - 2);
        let result: Option<Datum> = match (stack[n - 2], stack[n - 1]) {
            (Datum::Int(x), Datum::Int(y)) => if code == opcode(ByteCode::IntegerAddition) {
                Some(Datum::Int(x + y))
            } else if code == opcode(ByteCode::IntegerSubtraction) {
                Some(Datum::Int(x - y))
            } else if code == opcode(ByteCode::IntegerMultiplication) {
                Some(Datum::Int(x * y))
            } else if code == opcode(ByteCode::IntegerDivision) {
                Some(Datum::Int(quotient(x, y)))
            } else if code == opcode(ByteCode::IntegerModulo) {
                Some(Datum::Int(remainder(x, y)))
            } else if code == opcode(ByteCode::IntegerLessThan) {
                Some(Datum::Bool(x < y))
            } else if code == opcode(ByteCode::IntegerLessThanEquals) {
                Some(Datum::Bool(x <= y))
            } else {
                None
            },
            (Datum::Float(x), Datum::Float(y)) => if code == opcode(ByteCode::FloatAddition) {
                Some(Datum::Float((fm.add)(x, y)))
            } else if code == opcode(ByteCode::FloatSubtraction) {
                Some(Datum::Float((fm.sub)(x, y)))
            } else if code == opcode(ByteCode::FloatMultiplication) {
                Some(Datum::Float((fm.mul)(x, y)))
            } else if code == opcode(ByteCode::FloatDivision) {
                Some(Datum::Float((fm.div)(x, y)))
            } else if code == opcode(ByteCode::FloatModulo) {
                Some(Datum::Float((fm.rem)(x, y)))
            } else if code == opcode(ByteCode::FloatLessThan) {
                Some(Datum::Bool((fm.lt)(x, y)))
            } else if code == opcode(ByteCode::FloatLessThanEquals) {
                Some(Datum::Bool((fm.le)(x, y)))
            } else {
                None
            },
            (Datum::Bool(x), Datum::Bool(y)) => if code == opcode(ByteCode::BooleanAnd) {
                Some(Datum::Bool(x && y))
            } else if code == opcode(ByteCode::BooleanOr) {
                Some(Datum::Bool(x || y))
            } else {
                None
            },
            (Datum::Text(x), Datum::Text(y)) => if code == opcode(ByteCode::StringConcat) {
                Some(Datum::Text(x + y))
            } else {
                None
            },
            _ => None,
        };
        if code == opcode(ByteCode::Equals) {
            Some(rest.push(Datum::Bool(stack[n - 2] == stack[n - 1])))
        } else {
            match result {
                Some(d) => Some(rest.push(d)),
                None => None,
            }
        }
    }
}

/// The stack after the instructions of `code` run in order on `stack`; an integer push takes
/// its four operand bytes, big-endian.
pub open spec fn run(code: Seq<u8>, stack: Seq<Datum>, fm: FloatMath) -> Option<Seq<Datum>>
    decreases code.len(),
{
    if code.len() == 0 {
        Some(stack)
    } else if code[0] == opcode(ByteCode::PushInteger) {
        if code.len() < 5 {
            None
        } else {
            run(
                code.subrange(5, code.len() as int),
                stack.push(Datum::Int(i32_from_be(code[1], code[2], code[3], code[4]) as int)),
                fm,
            )
        }
    } else {
        match execute(code[0], stack, fm) {
            Some(next) => run(code.subrange(1, code.len() as int), next, fm),
            None => None,
        }
    }
}

/// What a binary operator of the language means on two operands: integers are added,
/// subtracted, multiplied, divided toward zero and compared; floats are combined and compared
/// by the host's arithmetic; booleans are conjoined and disjoined; texts are joined; any two
/// values are tested for equality. `None` where the operands are not of the operator's kind.
pub open spec fn meaning(op: BinaryOperator, a: Datum, b: Datum, fm: FloatMath) -> Option<Datum> {
    match (op, a, b) {
        (BinaryOperator::IntegerOperation(o), Datum::Int(x), Datum::Int(y)) => Some(Datum::Int(match o {
            ArithmeticOperations::Addition => x + y,
            ArithmeticOperations::Subtraction => x - y,
            ArithmeticOperations::Multiplication => x * y,
            ArithmeticOperations::Division => quotient(x, y),
            ArithmeticOperations::Modulus => remainder(x, y),
        })),
        (BinaryOperator::IntegerComparison(c), Datum::Int(x), Datum::Int(y)) => Some(Datum::Bool(match c {
            Comparisons::LessThan => x < y,
            Comparisons::LessThanEqual => x <= y,
            Comparisons::GreaterThan => x > y,
            Comparisons::GreaterThanEqual => x >= y,
        })),
        (BinaryOperator::FloatOperation(o), Datum::Float(x), Datum::Float(y)) => Some(Datum::Float(match o {
            ArithmeticOperations::Addition => (fm.add)(x, y),
            ArithmeticOperations::Subtraction => (fm.sub)(x, y),
            ArithmeticOperations::Multiplication => (fm.mul)(x, y),
            ArithmeticOperations::Division => (fm.div)(x, y),
            ArithmeticOperations::Modulus => (fm.rem)(x, y),
        })),
        (BinaryOperator::FloatComparison(c), Datum::Float(x), Datum::Float(y)) => Some(Datum::Bool(match c {
            Comparisons::LessThan => (fm.lt)(x, y),
            Comparisons::LessThanEqual => (fm.le)(x, y),
            Comparisons::GreaterThan => (fm.lt)(y, x),
            Comparisons::GreaterThanEqual => (fm.le)(y, x),
        })),
        (BinaryOperator::BooleanOperation(o), Datum::Bool(x), Datum::Bool(y)) => Some(Datum::Bool(match o {
            BooleanOperations::And => x && y,
            BooleanOperations::Or => x || y,
        })),
        (BinaryOperator::StringOperation(_), Datum::Text(x), Datum::Text(y)) => Some(Datum::Text(x + y)),
        (BinaryOperator::Equality(e), _, _) => Some(Datum::Bool(match e {
            EqualityOperations::Equal => a == b,
            EqualityOperations::NotEqual => a != b,
        })),
        _ => None,
    }
}

/// The code generated for a binary operator computes what the operator means: run on its two
/// operands, it leaves exactly their result. So `a >= b` leaves true exactly when `a` is at
/// least `b`, and each operator is told apart from every other by what it computes.
pub proof fn law_binary_code_computes(op: BinaryOperator, a: Datum, b: Datum, fm: FloatMath)
    requires
        meaning(op, a, b, fm) is Some,
        totally_ordered(fm),
    ensures
        run(binary_code(op), seq![a, b], fm) == Some(seq![meaning(op, a, b, fm)->0]),
{
    reveal_with_fuel(run, 3);
    let start = seq![a, b];
    assert(start.subrange(0, 0) =~= Seq::<Datum>::empty());
    let code = binary_code(op);
    if code.len() == 2 {
        let once = execute(code[0], start, fm);
        if once is Some {
            let mid = once->0;
            assert(mid.drop_last() =~= Seq::<Datum>::empty());
            assert(code.subrange(1, 2).subrange(1, 1) =~= Seq::<u8>::empty());
        }
        assert(code.subrange(1, 2) =~= seq![code[1]]);
    } else {
        assert(code.subrange(1, 1) =~= Seq::<u8>::empty());
    }
    match (op, a, b) {
        (BinaryOperator::FloatComparison(_), Datum::Float(x), Datum::Float(y)) => {
            assert((fm.le)(x, y) == !(fm.lt)(y, x));
            assert((fm.le)(y, x) == !(fm.lt)(x, y));
        },
        _ => {},
    }
}

/// What a unary operator means on its operand: negation negates a number, `!` inverts a
/// boolean.
pub open spec fn unary_meaning(op: UnaryOperator, v: Datum, fm: FloatMath) -> Option<Datum> {
    match (op, v) {
        (UnaryOperator::Negation, Datum::Int(x)) => Some(Datum::Int(-x)),
        (UnaryOperator::Negation, Datum::Float(x)) => Some(Datum::Float((fm.neg)(x))),
        (UnaryOperator::Not, Datum::Bool(x)) => Some(Datum::Bool(!x)),
        _ => None,
    }
}

/// The code of a unary expression is its operand's code and then one instruction that
/// computes the operator: run on the operand's value, it leaves the operator's result.
pub proof fn law_unary_expression_code(
    op: UnaryOperator,
    t: Token,
    e: Node,
    h: Host,
    st: CState,
    v: Datum,
    fm: FloatMath,
)
    requires
        p_emit(Node::Unary(op, t, Box::new(e)), h, st) is Some,
        unary_meaning(op, v, fm) is Some,
    ensures
        ({
            let done = p_emit(Node::Unary(op, t, Box::new(e)), h, st)->0;
            &&& p_emit(e, h, st) is Some
            &&& done.bytes.len() == p_emit(e, h, st)->0.bytes.len() + 1
            &&& done.bytes.subrange(0, done.bytes.len() - 1) == p_emit(e, h, st)->0.bytes
            &&& run(seq![done.bytes.last()], seq![v], fm) == Some(seq![unary_meaning(op, v, fm)->0])
        }),
{
    unfold_p_emit(Node::Unary(op, t, Box::new(e)), h, st);
    reveal_with_fuel(run, 2);
    let done = p_emit(Node::Unary(op, t, Box::new(e)), h, st)->0;
    let s1 = p_emit(e, h, st)->0;
    assert(done.bytes.subrange(0, done.bytes.len() - 1) =~= s1.bytes);
    assert(seq![done.bytes.last()].subrange(1, 1) =~= Seq::<u8>::empty());
    assert(seq![v].drop_last() =~= Seq::<Datum>::empty());
}

/// The code of a binary expression ends with the code that computes its operator: run on
/// the two operands' values, those last bytes leave the operator's result.
pub proof fn law_binary_expression_code(
    l: Node,
    op: BinaryOperator,
    t: Token,
    r: Node,
    h: Host,
    st: CState,
    a: Datum,
    b: Datum,
    fm: FloatMath,
)
    requires
        p_emit(Node::Binary(Box::new(l), op, t, Box::new(r)), h, st) is Some,
        meaning(op, a, b, fm) is Some,
        totally_ordered(fm),
    ensures
        ({
            let bytes = p_emit(Node::Binary(Box::new(l), op, t, Box::new(r)), h, st)->0.bytes;
            let k = bytes.len() - binary_code(op).len();
            &&& 0 <= k
            &&& run(bytes.subrange(k, bytes.len() as int), seq![a, b], fm) == Some(
                seq![meaning(op, a, b, fm)->0],
            )
        }),
{
    unfold_p_emit(Node::Binary(Box::new(l), op, t, Box::new(r)), h, st);
    let bytes = p_emit(Node::Binary(Box::new(l), op, t, Box::new(r)), h, st)->0.bytes;
    let k = bytes.len() - binary_code(op).len();
    assert(bytes.subrange(k, bytes.len() as int) =~= binary_code(op));
    law_binary_code_computes(op, a, b, fm);
}

/// The value that a boolean or integer literal stands for.
pub open spec fn literal_datum(v: Val) -> Option<Datum> {
    match v {
        Val::Boolean(b) => Some(Datum::Bool(b)),
        Val::Integer(i) => Some(Datum::Int(i as int)),
        _ => None,
    }
}

/// The code of a boolean or integer literal is appended after the code so far, and run on
/// its own it pushes the literal's value.
pub proof fn law_literal_code(v: Val, t: Token, h: Host, st: CState, fm: FloatMath)
    requires
        literal_datum(v) is Some,
    ensures
        p_emit(Node::Value(v, t), h, st) is Some,
        ({
            let bytes = p_emit(Node::Value(v, t), h, st)->0.bytes;
            &&& st.bytes.len() <= bytes.len()
            &&& bytes.subrange(0, st.bytes.len() as int) == st.bytes
            &&& run(bytes.subrange(st.bytes.len() as int, bytes.len() as int), Seq::empty(), fm)
                == Some(seq![literal_datum(v)->0])
        }),
{
    unfold_p_emit(Node::Value(v, t), h, st);
    reveal_with_fuel(run, 2);
    let bytes = p_emit(Node::Value(v, t), h, st)->0.bytes;
    let code = bytes.subrange(st.bytes.len() as int, bytes.len() as int);
    assert(bytes.subrange(0, st.bytes.len() as int) =~= st.bytes);
    match v {
        Val::Integer(i) => {
            law_i32_roundtrip(i);
            assert(code =~= seq![opcode(ByteCode::PushInteger)] + be_i32(i));
            assert(code.subrange(5, 5) =~= Seq::<u8>::empty());
            assert(Seq::<Datum>::empty().push(Datum::Int(i as int)) =~= seq![Datum::Int(i as int)]);
        },
        _ => {
            assert(code.subrange(1, 1) =~= Seq::<u8>::empty());
            assert(Seq::<Datum>::empty().push(literal_datum(v)->0) =~= seq![literal_datum(v)->0]);
        },
    }
}

} // verus!

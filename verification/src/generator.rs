use vstd::prelude::*;

use crate::bytecodes::{ByteCode, opcode};
use crate::codegen::{BytecodeBuilder, be_i32, string_operand};
use crate::diagnostics::Diagnostics;
use crate::emission::{
    CState, Chunk, Host, binary_code, bind_params, bodies, chunk_offset, code_start, link,
    next_slot, overflows, p_emit, p_emit_all, p_emit_args, p_emit_arms, p_function, patch_all,
    patched, program_code, put, signature, signatures, signatures_len, unfold_p_emit,
    unfold_p_emit_all, unfold_p_emit_args, unfold_p_emit_arms, unfold_p_function, utf8_len,
    with_jump, with_local,
};
use crate::errors::Error;
use crate::expressions::{
    Arg, Arm, ArithmeticOperations, BinaryOperator, BooleanOperations, Comparisons,
    EqualityOperations, Expr, IsArm, IsArmPattern, Node, UnaryOperator, Val, ValueType,
    args_of, arms_of, node_of, nodes_of, pattern_of,
};
use crate::program::Context;
use crate::text::push_str;
use crate::tokens::Token;
use crate::typer::{lemma_args_of_index, lemma_arms_of_index, lemma_nodes_of_index};

verus! {

broadcast use vstd::std_specs::vec::group_vec_axioms;

/// The slots of the names in `s`; a later entry for a name hides an earlier one.
pub open spec fn slots_of(s: Seq<(String, u8)>) -> Map<Seq<char>, u8>
    decreases s.len(),
{
    if s.len() == 0 {
        Map::empty()
    } else {
        slots_of(s.drop_last()).insert(s.last().0@, s.last().1)
    }
}

/// The names of `s`.
pub open spec fn names_of(s: Seq<String>) -> Seq<Seq<char>> {
    s.map_values(|n: String| n@)
}

/// The code of one function, as it is being generated.
struct FunctionCode {
    name: String,
    local_count: u8,
    bytes: Vec<u8>,
}

/// The value of a function's code.
spec fn chunk_of(c: FunctionCode) -> Chunk {
    Chunk { name: c.name@, local_count: c.local_count, bytes: c.bytes@ }
}

/// The values of the functions' code.
spec fn chunks_of(s: Seq<FunctionCode>) -> Seq<Chunk> {
    s.map_values(|c: FunctionCode| chunk_of(c))
}

/// The code of the function being generated, with the slots of the names in scope and the
/// names that are its locals.
struct Frame {
    bytecode: BytecodeBuilder,
    env: Vec<(String, u8)>,
    locals: Vec<String>,
}

/// The generation state of `f`, `chunks` and the errors.
spec fn cs(f: Frame, chunks: Seq<FunctionCode>, errors: Seq<Error>) -> CState {
    CState {
        bytes: f.bytecode@,
        env: slots_of(f.env@),
        locals: names_of(f.locals@),
        chunks: chunks_of(chunks),
        errors,
    }
}

/// Whether `f` computes `bits` for each text.
pub open spec fn bits_as<B: Fn(&str) -> u32>(f: B, bits: spec_fn(Seq<char>) -> u32) -> bool {
    forall|s: &str, r: u32| call_ensures(f, (s,), r) ==> r == bits(s@)
}

/// The host that `context` and `float_bits` make.
pub open spec fn host_of<F, G, B: Fn(&str) -> u32>(context: Context<F, G>, float_bits: B, h: Host) -> bool {
    &&& context.wf()
    &&& h.values == context.values().dom()
    &&& h.functions == Map::new(
        |k: Seq<char>| context.functions().contains_key(k),
        |k: Seq<char>| context.functions()[k].0,
    )
    &&& bits_as(float_bits, h.float_bits)
    &&& forall|s: &str| call_requires(float_bits, (s,))
}

proof fn lemma_slots_prefix(s: Seq<(String, u8)>, i: int, name: Seq<char>)
    requires
        0 <= i <= s.len(),
        forall|j: int| i <= j < s.len() ==> (#[trigger] s[j]).0@ != name,
    ensures
        slots_of(s).contains_key(name) == slots_of(s.subrange(0, i)).contains_key(name),
        slots_of(s).contains_key(name) ==> slots_of(s)[name] == slots_of(s.subrange(0, i))[name],
    decreases s.len() - i,
{
    if i < s.len() {
        let t = s.drop_last();
        assert(t.subrange(0, i) =~= s.subrange(0, i));
        lemma_slots_prefix(t, i, name);
    } else {
        assert(s.subrange(0, i) =~= s);
    }
}

/// The slot of `name` in `env`, if it has one.
fn lookup(env: &Vec<(String, u8)>, name: &String) -> (r: Option<u8>)
    ensures
        match r {
            Some(v) => slots_of(env@).contains_key(name@) && v == slots_of(env@)[name@],
            None => !slots_of(env@).contains_key(name@),
        },
{
    let mut i = env.len();
    while i > 0
        invariant
            i <= env@.len(),
            forall|j: int| i <= j < env@.len() ==> (#[trigger] env@[j]).0@ != name@,
        decreases i,
    {
        if env[i - 1].0.eq(name) {
            proof {
                lemma_slots_prefix(env@, i as int, name@);
                assert(env@.subrange(0, i as int).drop_last() =~= env@.subrange(0, i - 1));
            }
            return Some(env[i - 1].1);
        }
        i -= 1;
    }
    proof {
        lemma_slots_prefix(env@, 0, name@);
    }
    None
}

/// Whether `name` is one of `locals`.
fn is_local(locals: &Vec<String>, name: &String) -> (r: bool)
    ensures
        r == names_of(locals@).contains(name@),
{
    let mut i: usize = 0;
    while i < locals.len()
        invariant
            i <= locals@.len(),
            forall|j: int| 0 <= j < i ==> (#[trigger] locals@[j])@ != name@,
        decreases locals.len() - i,
    {
        if locals[i].eq(name) {
            proof {
                assert(names_of(locals@)[i as int] == name@);
            }
            return true;
        }
        i += 1;
    }
    proof {
        if names_of(locals@).contains(name@) {
            let j = choose|j: int| 0 <= j < names_of(locals@).len() && names_of(locals@)[j] == name@;
            assert(locals@[j]@ == name@);
        }
    }
    false
}

/// The number of UTF-8 bytes of `s`.
fn byte_len(s: &String) -> (r: usize)
    ensures
        r == utf8_len(s@),
{
    s.as_str().as_bytes().len()
}

/// `text` as a `String`.
fn text(t: &str) -> (r: String)
    ensures
        r@ == t@,
{
    let mut r = String::new();
    push_str(&mut r, t);
    r
}

/// Whether `g` keeps the names in scope and the locals of `f`, and adds only after them.
spec fn extends(f: Frame, g: Frame) -> bool {
    &&& f.env@.len() <= g.env@.len()
    &&& g.env@.subrange(0, f.env@.len() as int) == f.env@
    &&& f.locals@.len() <= g.locals@.len()
    &&& g.locals@.subrange(0, f.locals@.len() as int) == f.locals@
}

proof fn lemma_extends_trans(f: Frame, g: Frame, k: Frame)
    requires
        extends(f, g),
        extends(g, k),
    ensures
        extends(f, k),
{
    assert(k.env@.subrange(0, f.env@.len() as int) =~= k.env@.subrange(0, g.env@.len() as int).subrange(0, f.env@.len() as int));
    assert(k.locals@.subrange(0, f.locals@.len() as int) =~= k.locals@.subrange(0, g.locals@.len() as int).subrange(0, f.locals@.len() as int));
}

impl Frame {
    /// Gives `name` the slot `slot` and makes it a local.
    fn declare(&mut self, name: &String, slot: u8)
        ensures
            final(self).bytecode@ == old(self).bytecode@,
            slots_of(final(self).env@) == slots_of(old(self).env@).insert(name@, slot),
            names_of(final(self).locals@) == with_local(names_of(old(self).locals@), name@),
            extends(*old(self), *final(self)),
    {
        let ghost before = self.env@;
        let ghost old_locals = self.locals@;
        self.env.push((name.clone(), slot));
        proof {
            assert(self.env@.drop_last() =~= before);
            assert(self.env@.subrange(0, before.len() as int) =~= before);
        }
        if !is_local(&self.locals, name) {
            self.locals.push(name.clone());
            proof {
                assert(names_of(self.locals@) =~= names_of(old_locals).push(name@));
            }
        }
        proof {
            assert(self.locals@.subrange(0, old_locals.len() as int) =~= old_locals);
        }
    }

    /// The next local slot.
    fn next_slot(&self) -> (r: u8)
        ensures
            r == (names_of(self.locals@).len() % 256) as u8,
    {
        #[verifier::truncate]
        let r = (self.locals.len() % 256) as u8;
        r
    }
}

/// Appends a jump of kind `code` with an offset to be patched, as `with_jump` says; `None`
/// where the bytes would not fit.
fn add_jump(b: &mut BytecodeBuilder, code: ByteCode) -> (r: Option<usize>)
    requires
        code == ByteCode::Jump || code == ByteCode::JumpIfFalse,
    ensures
        r is None ==> old(b)@.len() + 3 > usize::MAX,
        r matches Some(at) ==> old(b)@.len() + 3 <= usize::MAX && final(b)@ == old(b)@ + seq![
            opcode(code),
            0u8,
            0u8,
        ] && at == old(b)@.len() + 1,
{
    if b.bytes().len() > usize::MAX - 3 {
        return None;
    }
    let at = match code {
        ByteCode::Jump => b.add_unconditional_jump(),
        _ => b.add_jump_if_false(),
    };
    proof {
        assert(old(b)@.push(opcode(code)) + seq![0u8, 0u8] =~= old(b)@ + seq![opcode(code), 0u8, 0u8]);
    }
    Some(at)
}

/// The positions of `s` as integers.
spec fn ints(s: Seq<usize>) -> Seq<int> {
    s.map_values(|a: usize| a as int)
}

/// Patches the jumps at `ats` in order, as `patch_all` says of `st`, whose bytes are those of
/// `b`; `false` where one does not fit.
fn patch_jumps(b: &mut BytecodeBuilder, ats: &Vec<usize>, Ghost(st): Ghost<CState>) -> (r: bool)
    requires
        st.bytes == old(b)@,
    ensures
        r == (patch_all(st, ints(ats@)) is Some),
        r ==> patch_all(st, ints(ats@)) == Some(CState { bytes: final(b)@, ..st }),
{
    let ghost all = ints(ats@);
    let mut i: usize = 0;
    proof {
        assert(all.subrange(0, all.len() as int) =~= all);
        assert(CState { bytes: b@, ..st } == st);
    }
    while i < ats.len()
        invariant
            i <= ats@.len(),
            all == ints(ats@),
            patch_all(st, all) == patch_all(
                CState { bytes: b@, ..st },
                all.subrange(i as int, all.len() as int),
            ),
        decreases ats.len() - i,
    {
        let at = ats[i];
        let ghost rest = all.subrange(i as int, all.len() as int);
        let ghost before = b@;
        proof {
            assert(rest[0] == at as int);
            assert(rest.subrange(1, rest.len() as int) =~= all.subrange(i + 1, all.len() as int));
        }
        let n = b.bytes().len();
        if !(at <= n && n - at >= 2) || n - (at + 2) > 32767 {
            proof {
                assert(patched(before, at as int) is None);
            }
            return false;
        }
        b.patch_jump_to_current_byte(at);
        proof {
            assert(patched(before, at as int) == Some(b@));
        }
        i += 1;
    }
    proof {
        assert(all.subrange(i as int, all.len() as int) =~= Seq::<int>::empty());
    }
    true
}

/// The functions generated so far and the errors reported.
struct Codegen {
    chunks: Vec<FunctionCode>,
    diagnostics: Diagnostics,
}

/// The generation state of `g` with the current function `f`.
spec fn gst(g: Codegen, f: Frame) -> CState {
    cs(f, g.chunks@, g.diagnostics.errors())
}

/// A copy of `env`.
fn copy_env(env: &Vec<(String, u8)>) -> (r: Vec<(String, u8)>)
    ensures
        r@ == env@,
{
    let mut r: Vec<(String, u8)> = Vec::new();
    let mut i: usize = 0;
    while i < env.len()
        invariant
            i <= env@.len(),
            r@ == env@.subrange(0, i as int),
        decreases env.len() - i,
    {
        r.push((env[i].0.clone(), env[i].1));
        proof {
            assert(r@ =~= env@.subrange(0, i + 1));
        }
        i += 1;
    }
    proof {
        assert(env@.subrange(0, i as int) =~= env@);
    }
    r
}

impl Codegen {
    /// Generates the code of `e` into `frame`, as `p_emit` says; `false` where generation
    /// panics.
    #[verifier::loop_isolation(false)]
    #[verifier::spinoff_prover]
    #[verifier::rlimit(50)]
    fn emit_expr<F, G, B: Fn(&str) -> u32>(
        &mut self,
        e: &Expr,
        frame: &mut Frame,
        context: &Context<F, G>,
        float_bits: &B,
        Ghost(h): Ghost<Host>,
    ) -> (ok: bool)
        requires
            host_of(*context, *float_bits, h),
        ensures
            ok == (p_emit(node_of(*e), h, gst(*old(self), *old(frame))) is Some),
            ok ==> p_emit(node_of(*e), h, gst(*old(self), *old(frame))) == Some(
                gst(*final(self), *final(frame)),
            ),
            ok ==> extends(*old(frame), *final(frame)),
            ok ==> old(self).chunks@.len() <= final(self).chunks@.len(),
        decreases e, 1int,
    {
        proof {
            unfold_p_emit(node_of(*e), h, gst(*self, *frame));
            reveal_with_fuel(node_of, 2);
        }
        let ghost f0 = *frame;
        let ghost g0 = *self;
        match e {
            Expr::Value { value, token } => match value {
                ValueType::Boolean(b) => {
                    if *b {
                        frame.bytecode.add_op(ByteCode::PushTrue);
                    } else {
                        frame.bytecode.add_op(ByteCode::PushFalse);
                    }
                    proof {
                        assert(frame.bytecode@ =~= f0.bytecode@ + seq![opcode(if *b { ByteCode::PushTrue } else { ByteCode::PushFalse })]);
                        assert(frame.env@.subrange(0, f0.env@.len() as int) =~= f0.env@);
                        assert(frame.locals@.subrange(0, f0.locals@.len() as int) =~= f0.locals@);
                    }
                    true
                },
                ValueType::Integer(i) => {
                    frame.bytecode.add_op(ByteCode::PushInteger).add_i32(i);
                    proof {
                        assert(frame.bytecode@ =~= f0.bytecode@ + (seq![opcode(ByteCode::PushInteger)] + be_i32(*i)));
                        assert(frame.env@.subrange(0, f0.env@.len() as int) =~= f0.env@);
                        assert(frame.locals@.subrange(0, f0.locals@.len() as int) =~= f0.locals@);
                    }
                    true
                },
                ValueType::Float(t) => {
                    let bits = float_bits(t.as_str());
                    #[verifier::truncate]
                    let v = bits as i32;
                    frame.bytecode.add_op(ByteCode::PushFloat).add_i32(&v);
                    proof {
                        assert(frame.bytecode@ =~= f0.bytecode@ + (seq![opcode(ByteCode::PushFloat)] + be_i32(v)));
                        assert(frame.env@.subrange(0, f0.env@.len() as int) =~= f0.env@);
                        assert(frame.locals@.subrange(0, f0.locals@.len() as int) =~= f0.locals@);
                    }
                    true
                },
                ValueType::String(t) => {
                    if byte_len(t) > 255 {
                        return false;
                    }
                    frame.bytecode.add_op(ByteCode::PushString).add_string(t.as_str());
                    proof {
                        assert(frame.bytecode@ =~= f0.bytecode@ + (seq![opcode(ByteCode::PushString)] + string_operand(t@)));
                        assert(frame.env@.subrange(0, f0.env@.len() as int) =~= f0.env@);
                        assert(frame.locals@.subrange(0, f0.locals@.len() as int) =~= f0.locals@);
                    }
                    true
                },
                ValueType::Function { params, expr } => {
                    proof {
                        assert(decreases_to!(*e => *value));
                        assert(decreases_to!(*value => *expr));
                    }
                    let ok = self.emit_function(None, params, expr, frame, context, float_bits, Ghost(h));
                    proof {
                        assert(frame.env@.subrange(0, f0.env@.len() as int) =~= f0.env@);
                        assert(frame.locals@.subrange(0, f0.locals@.len() as int) =~= f0.locals@);
                    }
                    ok
                },
            },
            Expr::Grouping(inner) => self.emit_expr(inner, frame, context, float_bits, Ghost(h)),
            Expr::Identifier { name } => {
                if context.has_value(&name.lexeme) {
                    if byte_len(&name.lexeme) > 255 {
                        self.diagnostics.add_error(Error::FunctionNameTooLong { token: name.clone() });
                    }
                    frame.bytecode.add_op(ByteCode::GetForeignValue).add_string(name.lexeme.as_str());
                    proof {
                        assert(frame.bytecode@ =~= f0.bytecode@ + (seq![opcode(ByteCode::GetForeignValue)] + string_operand(name.lexeme@)));
                        assert(frame.env@.subrange(0, f0.env@.len() as int) =~= f0.env@);
                        assert(frame.locals@.subrange(0, f0.locals@.len() as int) =~= f0.locals@);
                    }
                    true
                } else {
                    match lookup(&frame.env, &name.lexeme) {
                        Some(slot) => {
                            frame.bytecode.add_get_local_value(slot);
                            proof {
                                assert(frame.env@.subrange(0, f0.env@.len() as int) =~= f0.env@);
                                assert(frame.locals@.subrange(0, f0.locals@.len() as int) =~= f0.locals@);
                            }
                            true
                        },
                        None => false,
                    }
                }
            },
            Expr::Unary { operator, _token, expr } => {
                if !self.emit_expr(expr, frame, context, float_bits, Ghost(h)) {
                    return false;
                }
                let ghost f1 = *frame;
                match operator {
                    UnaryOperator::Negation => {
                        frame.bytecode.add_op(ByteCode::Negation);
                    },
                    UnaryOperator::Not => {
                        frame.bytecode.add_op(ByteCode::Not);
                    },
                }
                proof {
                    assert(frame.bytecode@ =~= f1.bytecode@ + seq![opcode(match *operator {
                        UnaryOperator::Negation => ByteCode::Negation,
                        UnaryOperator::Not => ByteCode::Not,
                    })]);
                }
                true
            },
            Expr::Binary { left, operator, _token, right } => {
                if !self.emit_expr(left, frame, context, float_bits, Ghost(h)) {
                    return false;
                }
                let ghost f1 = *frame;
                if !self.emit_expr(right, frame, context, float_bits, Ghost(h)) {
                    return false;
                }
                proof {
                    lemma_extends_trans(f0, f1, *frame);
                }
                add_binary(&mut frame.bytecode, operator);
                true
            },
            Expr::Assignment { name, _operator, expr } => match &**expr {
                Expr::Value { value: ValueType::Function { params, expr: body }, token } => {
                    proof {
                        assert(decreases_to!(*e => *expr));
                        assert(decreases_to!(**expr => *body));
                    }
                    let slot = frame.next_slot();
                    let ghost sa = gst(*self, *frame);
                    frame.declare(&name.lexeme, slot);
                    let ghost f1 = *frame;
                    proof {
                        assert(gst(*self, f1) == CState {
                            env: sa.env.insert(name.lexeme@, slot),
                            locals: with_local(sa.locals, name.lexeme@),
                            ..sa
                        });
                    }
                    let named = name.clone();
                    proof {
                        assert(node_of(**expr) == Node::Value(Val::Function(params@, Box::new(node_of(**body))), *token));
                    }
                    if !self.emit_function(Some(named), params, body, frame, context, float_bits, Ghost(h)) {
                        return false;
                    }
                    let ghost f2 = *frame;
                    frame.bytecode.add_set_local_value(slot);
                    proof {
                        assert(frame.env@.subrange(0, f1.env@.len() as int) =~= f1.env@);
                        assert(frame.locals@.subrange(0, f1.locals@.len() as int) =~= f1.locals@);
                        lemma_extends_trans(f0, f1, *frame);
                    }
                    true
                },
                _ => {
                    if !self.emit_expr(expr, frame, context, float_bits, Ghost(h)) {
                        return false;
                    }
                    let ghost f1 = *frame;
                    let slot = frame.next_slot();
                    frame.declare(&name.lexeme, slot);
                    let ghost f2 = *frame;
                    frame.bytecode.add_set_local_value(slot);
                    proof {
                        lemma_extends_trans(f0, f1, f2);
                    }
                    true
                },
            },
            Expr::Block { exprs } => {
                let ghost ns = nodes_of(exprs@);
                proof {
                    lemma_nodes_of_index(exprs@);
                    assert(ns.subrange(0, ns.len() as int) =~= ns);
                    assert(f0.env@.subrange(0, f0.env@.len() as int) =~= f0.env@);
                    assert(f0.locals@.subrange(0, f0.locals@.len() as int) =~= f0.locals@);
                }
                let ghost st0 = gst(*self, *frame);
                let env_len = frame.env.len();
                let locals_len = frame.locals.len();
                let mut i: usize = 0;
                while i < exprs.len()
                    invariant
                        i <= exprs@.len(),
                        ns == nodes_of(exprs@),
                        ns.len() == exprs@.len(),
                        forall|j: int| 0 <= j < exprs@.len() ==> #[trigger] ns[j] == node_of(exprs@[j]),
                        p_emit_all(ns, h, st0) == p_emit_all(
                            ns.subrange(i as int, ns.len() as int),
                            h,
                            gst(*self, *frame),
                        ),
                        extends(f0, *frame),
                        g0.chunks@.len() <= self.chunks@.len(),
                        *e == (Expr::Block { exprs: *exprs }),
                    decreases exprs.len() - i,
                {
                    proof {
                        unfold_p_emit_all(ns.subrange(i as int, ns.len() as int), h, gst(*self, *frame));
                        assert(ns.subrange(i as int, ns.len() as int).subrange(1, ns.len() - i)
                            =~= ns.subrange(i + 1, ns.len() as int));
                        assert(ns.subrange(i as int, ns.len() as int)[0] == ns[i as int]);
                        assert(decreases_to!(*e => *exprs));
                        assert(decreases_to!(*exprs => exprs@));
                        assert(decreases_to!(exprs@ => exprs@[i as int]));
                    }
                    let ghost f1 = *frame;
                    if !self.emit_expr(&exprs[i], frame, context, float_bits, Ghost(h)) {
                        return false;
                    }
                    proof {
                        lemma_extends_trans(f0, f1, *frame);
                    }
                    i += 1;
                }
                proof {
                    unfold_p_emit_all(ns.subrange(i as int, ns.len() as int), h, gst(*self, *frame));
                }
                frame.env.truncate(env_len);
                frame.locals.truncate(locals_len);
                proof {
                    assert(frame.env@ =~= f0.env@);
                    assert(frame.locals@ =~= f0.locals@);
                }
                true
            },
            Expr::Call { name, args } => {
                let ghost a = args_of(args@);
                proof {
                    lemma_args_of_index(args@);
                    assert(a.subrange(0, a.len() as int) =~= a);
                    assert(f0.env@.subrange(0, f0.env@.len() as int) =~= f0.env@);
                    assert(f0.locals@.subrange(0, f0.locals@.len() as int) =~= f0.locals@);
                }
                let ghost st0 = gst(*self, *frame);
                let mut i: usize = 0;
                while i < args.len()
                    invariant
                        i <= args@.len(),
                        a == args_of(args@),
                        a.len() == args@.len(),
                        forall|j: int|
                            0 <= j < args@.len() ==> #[trigger] a[j] == (Arg {
                                node: node_of(args@[j].expr),
                                position: args@[j].position,
                            }),
                        p_emit_args(a, h, st0) == p_emit_args(
                            a.subrange(i as int, a.len() as int),
                            h,
                            gst(*self, *frame),
                        ),
                        extends(f0, *frame),
                        g0.chunks@.len() <= self.chunks@.len(),
                        *e == (Expr::Call { name: *name, args: *args }),
                    decreases args.len() - i,
                {
                    proof {
                        unfold_p_emit_args(a.subrange(i as int, a.len() as int), h, gst(*self, *frame));
                        assert(a.subrange(i as int, a.len() as int).subrange(1, a.len() - i)
                            =~= a.subrange(i + 1, a.len() as int));
                        assert(a.subrange(i as int, a.len() as int)[0] == a[i as int]);
                        assert(decreases_to!(*e => *args));
                        assert(decreases_to!(*args => args@));
                        assert(decreases_to!(args@ => args@[i as int]));
                        assert(decreases_to!(args@[i as int] => args@[i as int].expr));
                    }
                    let ghost f1 = *frame;
                    if !self.emit_expr(&args[i].expr, frame, context, float_bits, Ghost(h)) {
                        return false;
                    }
                    proof {
                        lemma_extends_trans(f0, f1, *frame);
                    }
                    i += 1;
                }
                proof {
                    unfold_p_emit_args(a.subrange(i as int, a.len() as int), h, gst(*self, *frame));
                }
                let ghost s1 = gst(*self, *frame);
                let ghost f1 = *frame;
                #[verifier::truncate]
                let count = args.len() as u8;
                proof {
                    let n = args.len();
                    assert(n as u8 == (n % 256) as u8) by (bit_vector);
                }
                if context.has_function(&name.lexeme) {
                    let index = context.get_index(&name.lexeme);
                    frame.bytecode.add_op(ByteCode::CallForeign).add_byte(index).add_byte(count);
                    proof {
                        assert(frame.bytecode@ =~= f1.bytecode@ + seq![opcode(ByteCode::CallForeign), index, count]);
                    }
                } else {
                    match lookup(&frame.env, &name.lexeme) {
                        Some(slot) => {
                            let local = is_local(&frame.locals, &name.lexeme);
                            frame.bytecode.add_op(ByteCode::Call).add_byte(count).add_byte(if local { 0 } else { 1 }).add_byte(slot);
                            proof {
                                assert(frame.bytecode@ =~= f1.bytecode@ + seq![
                                    opcode(ByteCode::Call),
                                    count,
                                    if local { 0u8 } else { 1u8 },
                                    slot,
                                ]);
                            }
                        },
                        None => {
                            return false;
                        },
                    }
                }
                if byte_len(&name.lexeme) > 255 {
                    return false;
                }
                let ghost f2 = *frame;
                frame.bytecode.add_string(name.lexeme.as_str());
                proof {
                    assert(frame.env@.subrange(0, f0.env@.len() as int) =~= f0.env@);
                    assert(frame.locals@.subrange(0, f0.locals@.len() as int) =~= f0.locals@);
                }
                true
            },
            Expr::Is { expr, arms } => self.emit_is(e, expr, arms, frame, context, float_bits, Ghost(h)),
        }
    }

    /// Generates an `is` expression `e`, with subject `expr` and arms `arms`, into `frame`,
    /// as `p_emit` says; `false` where generation panics.
    #[verifier::loop_isolation(false)]
    #[verifier::spinoff_prover]
    #[verifier::rlimit(50)]
    fn emit_is<F, G, B: Fn(&str) -> u32>(
        &mut self,
        e: &Expr,
        expr: &Box<Expr>,
        arms: &Vec<IsArm>,
        frame: &mut Frame,
        context: &Context<F, G>,
        float_bits: &B,
        Ghost(h): Ghost<Host>,
    ) -> (ok: bool)
        requires
            host_of(*context, *float_bits, h),
            *e == (Expr::Is { expr: *expr, arms: *arms }),
        ensures
            ok == (p_emit(node_of(*e), h, gst(*old(self), *old(frame))) is Some),
            ok ==> p_emit(node_of(*e), h, gst(*old(self), *old(frame))) == Some(
                gst(*final(self), *final(frame)),
            ),
            ok ==> extends(*old(frame), *final(frame)),
            ok ==> old(self).chunks@.len() <= final(self).chunks@.len(),
        decreases e, 0int,
    {
        proof {
            unfold_p_emit(node_of(*e), h, gst(*self, *frame));
            reveal_with_fuel(node_of, 2);
        }
        let ghost f0 = *frame;
        let ghost g0 = *self;
        proof {
            assert(decreases_to!(*e => *expr));
        }
        let slot: u8 = match &**expr {
            Expr::Identifier { name } => match lookup(&frame.env, &name.lexeme) {
                Some(s) => {
                    proof {
                        assert(frame.env@.subrange(0, f0.env@.len() as int) =~= f0.env@);
                        assert(frame.locals@.subrange(0, f0.locals@.len() as int) =~= f0.locals@);
                    }
                    s
                },
                None => {
                    return false;
                },
            },
            _ => {
                if !self.emit_expr(expr, frame, context, float_bits, Ghost(h)) {
                    return false;
                }
                let ghost f1 = *frame;
                let s = frame.next_slot();
                frame.bytecode.add_set_local_value(s);
                proof {
                    assert(frame.env@.subrange(0, f1.env@.len() as int) =~= f1.env@);
                    assert(frame.locals@.subrange(0, f1.locals@.len() as int) =~= f1.locals@);
                    lemma_extends_trans(f0, f1, *frame);
                }
                s
            },
        };
        let ghost a = arms_of(arms@);
        let ghost total = a.len() as int;
        let ghost st1 = gst(*self, *frame);
        proof {
            lemma_arms_of_index(arms@);
            assert(a.subrange(0, a.len() as int) =~= a);
            assert(extends(f0, *frame));
        }
        let mut ends: Vec<usize> = Vec::new();
        proof {
            assert(ints(ends@) =~= Seq::<int>::empty());
        }
        let mut i: usize = 0;
        while i < arms.len()
            invariant
                i <= arms@.len(),
                a == arms_of(arms@),
                a.len() == arms@.len(),
                forall|j: int|
                    0 <= j < arms@.len() ==> #[trigger] a[j] == (Arm {
                        pattern: pattern_of(arms@[j].pattern),
                        block: node_of(arms@[j].block),
                    }),
                p_emit_arms(a, slot, total, h, st1, Seq::empty()) == p_emit_arms(
                    a.subrange(i as int, a.len() as int),
                    slot,
                    total,
                    h,
                    gst(*self, *frame),
                    ints(ends@),
                ),
                extends(f0, *frame),
                g0.chunks@.len() <= self.chunks@.len(),
            decreases arms.len() - i,
        {
            let ghost rest = a.subrange(i as int, a.len() as int);
            proof {
                unfold_p_emit_arms(rest, slot, total, h, gst(*self, *frame), ints(ends@));
                assert(rest.subrange(1, rest.len() as int) =~= a.subrange(i + 1, a.len() as int));
                assert(rest[0] == a[i as int]);
                assert(decreases_to!(*e => *arms));
                assert(decreases_to!(*arms => arms@));
                assert(decreases_to!(arms@ => arms@[i as int]));
                assert(decreases_to!(arms@[i as int] => arms@[i as int].block));
                assert(decreases_to!(arms@[i as int] => arms@[i as int].pattern));
            }
            let arm = &arms[i];
            let ghost fa = *frame;
            let mut nexts: Vec<usize> = Vec::new();
            proof {
                assert(ints(nexts@) =~= Seq::<int>::empty());
            }
            let ghost s0 = gst(*self, *frame);
            match &arm.pattern {
                IsArmPattern::Expression(p) => {
                    frame.bytecode.add_get_local_value(slot);
                    proof {
                        assert(frame.env@.subrange(0, fa.env@.len() as int) =~= fa.env@);
                        assert(frame.locals@.subrange(0, fa.locals@.len() as int) =~= fa.locals@);
                        assert(gst(*self, *frame) == put(s0, seq![opcode(ByteCode::GetLocalValue), slot]));
                    }
                    let ghost fb = *frame;
                    if !self.emit_expr(p, frame, context, float_bits, Ghost(h)) {
                        return false;
                    }
                    proof {
                        lemma_extends_trans(fa, fb, *frame);
                    }
                    let ghost s1 = gst(*self, *frame);
                    frame.bytecode.add_op(ByteCode::Equals);
                    let ghost s1e = gst(*self, *frame);
                    proof {
                        assert(frame.bytecode@ =~= s1.bytes + seq![opcode(ByteCode::Equals)]);
                        assert(s1e == put(s1, seq![opcode(ByteCode::Equals)]));
                    }
                    match add_jump(&mut frame.bytecode, ByteCode::JumpIfFalse) {
                        None => {
                            proof {
                                assert(with_jump(s1e, ByteCode::JumpIfFalse) is None);
                            }
                            return false;
                        },
                        Some(at) => {
                            nexts.push(at);
                            proof {
                                assert(ints(nexts@) =~= seq![at as int]);
                                assert(with_jump(s1e, ByteCode::JumpIfFalse) == Some((gst(*self, *frame), at as int)));
                            }
                        },
                    }
                },
                IsArmPattern::Capture { identifier, condition } => {
                    frame.declare(&identifier.lexeme, slot);
                    proof {
                        assert(gst(*self, *frame) == CState {
                            env: s0.env.insert(identifier.lexeme@, slot),
                            locals: with_local(s0.locals, identifier.lexeme@),
                            ..s0
                        });
                    }
                    match condition {
                        None => {},
                        Some(c) => {
                            let ghost fb = *frame;
                            if !self.emit_expr(c, frame, context, float_bits, Ghost(h)) {
                                return false;
                            }
                            proof {
                                lemma_extends_trans(fa, fb, *frame);
                            }
                            let ghost s2 = gst(*self, *frame);
                            match add_jump(&mut frame.bytecode, ByteCode::JumpIfFalse) {
                                None => {
                                    proof {
                                        assert(with_jump(s2, ByteCode::JumpIfFalse) is None);
                                    }
                                    return false;
                                },
                                Some(at) => {
                                    nexts.push(at);
                                    proof {
                                        assert(ints(nexts@) =~= seq![at as int]);
                                        assert(with_jump(s2, ByteCode::JumpIfFalse) == Some((gst(*self, *frame), at as int)));
                                    }
                                },
                            }
                        },
                    }
                },
                IsArmPattern::Default => {
                    proof {
                        assert(frame.env@.subrange(0, fa.env@.len() as int) =~= fa.env@);
                        assert(frame.locals@.subrange(0, fa.locals@.len() as int) =~= fa.locals@);
                    }
                },
            }
            let ghost fc = *frame;
            if !self.emit_expr(&arm.block, frame, context, float_bits, Ghost(h)) {
                return false;
            }
            proof {
                lemma_extends_trans(fa, fc, *frame);
            }
            let ghost s2 = gst(*self, *frame);
            if i + 1 < arms.len() {
                match add_jump(&mut frame.bytecode, ByteCode::Jump) {
                    None => {
                        proof {
                            assert(with_jump(s2, ByteCode::Jump) is None);
                        }
                        return false;
                    },
                    Some(at) => {
                        proof {
                            assert(ints(ends@.push(at)) =~= ints(ends@).push(at as int));
                            assert(with_jump(s2, ByteCode::Jump) == Some((gst(*self, *frame), at as int)));
                        }
                        ends.push(at);
                    },
                }
            }
            let ghost fd = *frame;
            let ghost sd = gst(*self, *frame);
            if !patch_jumps(&mut frame.bytecode, &nexts, Ghost(sd)) {
                return false;
            }
            proof {
                assert(frame.env@.subrange(0, fd.env@.len() as int) =~= fd.env@);
                assert(frame.locals@.subrange(0, fd.locals@.len() as int) =~= fd.locals@);
                lemma_extends_trans(fa, fd, *frame);
                lemma_extends_trans(f0, fa, *frame);
            }
            i += 1;
        }
        proof {
            unfold_p_emit_arms(a.subrange(i as int, a.len() as int), slot, total, h, gst(*self, *frame), ints(ends@));
        }
        let ghost fe = *frame;
        let ghost se = gst(*self, *frame);
        let ok = patch_jumps(&mut frame.bytecode, &ends, Ghost(se));
        proof {
            assert(frame.env@.subrange(0, fe.env@.len() as int) =~= fe.env@);
            assert(frame.locals@.subrange(0, fe.locals@.len() as int) =~= fe.locals@);
            lemma_extends_trans(f0, fe, *frame);
        }
        ok
    }

    /// Generates a function value into `frame` and its body into a chunk of its own, as
    /// `p_function` says; `false` where generation panics.
    #[verifier::loop_isolation(false)]
    #[verifier::spinoff_prover]
    fn emit_function<F, G, B: Fn(&str) -> u32>(
        &mut self,
        name: Option<Token>,
        params: &Vec<Token>,
        body: &Expr,
        frame: &mut Frame,
        context: &Context<F, G>,
        float_bits: &B,
        Ghost(h): Ghost<Host>,
    ) -> (ok: bool)
        requires
            host_of(*context, *float_bits, h),
        ensures
            ok == (p_function(name, params@, node_of(*body), h, gst(*old(self), *old(frame))) is Some),
            ok ==> p_function(name, params@, node_of(*body), h, gst(*old(self), *old(frame))) == Some(
                gst(*final(self), *final(frame)),
            ),
            final(frame).env@ == old(frame).env@,
            final(frame).locals@ == old(frame).locals@,
            ok ==> old(self).chunks@.len() <= final(self).chunks@.len(),
        decreases body, 2int,
    {
        proof {
            unfold_p_function(name, params@, node_of(*body), h, gst(*self, *frame));
        }
        let ghost st = gst(*self, *frame);
        if params.len() > 255 || self.chunks.len() >= 255 {
            return false;
        }
        let index = self.chunks.len();
        let count = params.len() as u8;
        frame.bytecode.add_op(ByteCode::Function).add_byte(index as u8).add_byte(count);
        proof {
            assert(frame.bytecode@ =~= st.bytes + seq![opcode(ByteCode::Function), index as u8, count]);
        }
        let ghost s1 = gst(*self, *frame);
        let lexeme = match &name {
            Some(t) => t.lexeme.clone(),
            None => text("(unnamed)"),
        };
        let mut inner = Frame { bytecode: BytecodeBuilder::new(), env: copy_env(&frame.env), locals: Vec::new() };
        inner.bytecode.add_op(ByteCode::FunctionChunk).add_string(lexeme.as_str());
        let ghost fresh = Chunk { name: lexeme@, local_count: count, bytes: Seq::empty() };
        self.chunks.push(FunctionCode { name: lexeme.clone(), local_count: count, bytes: Vec::new() });
        proof {
            assert(inner.bytecode@ =~= seq![opcode(ByteCode::FunctionChunk)] + string_operand(lexeme@));
            assert(chunks_of(self.chunks@) =~= s1.chunks.push(fresh));
            assert(names_of(inner.locals@) =~= Seq::<Seq<char>>::empty());
        }
        let ghost bound0 = gst(*self, inner);
        let mut i: usize = 0;
        while i < params.len()
            invariant
                i <= params@.len(),
                params@.len() <= 255,
                bind_params(params@, 0, bound0) == bind_params(params@, i as int, gst(*self, inner)),
                self.chunks@.len() == index + 1,
            decreases params.len() - i,
        {
            let ghost before = gst(*self, inner);
            inner.declare(&params[i].lexeme, i as u8);
            proof {
                assert(gst(*self, inner) == CState {
                    env: before.env.insert(params@[i as int].lexeme@, i as u8),
                    locals: with_local(before.locals, params@[i as int].lexeme@),
                    ..before
                });
            }
            i += 1;
        }
        if !self.emit_expr(body, &mut inner, context, float_bits, Ghost(h)) {
            return false;
        }
        inner.bytecode.add_op(ByteCode::Return);
        let code = inner.bytecode.into_bytes();
        let ghost done_chunks = chunks_of(self.chunks@);
        let kept_name = self.chunks[index].name.clone();
        let kept_count = self.chunks[index].local_count;
        self.chunks.set(index, FunctionCode { name: kept_name, local_count: kept_count, bytes: code });
        proof {
            assert(chunks_of(self.chunks@) =~= done_chunks.update(
                index as int,
                Chunk { bytes: code@, ..done_chunks[index as int] },
            ));
        }
        true
    }
}

/// The host that `context` and `float_bits` make: the names of the context's values, the
/// index of each of its functions, and the bits that `float_bits` gives each text.
pub open spec fn host<F, G, B: Fn(&str) -> u32>(context: Context<F, G>, float_bits: B) -> Host {
    Host {
        values: context.values().dom(),
        functions: Map::new(
            |k: Seq<char>| context.functions().contains_key(k),
            |k: Seq<char>| context.functions()[k].0,
        ),
        float_bits: |t: Seq<char>| choose|r: u32| yields(float_bits, t, r),
    }
}

/// Whether `f` gives `r` for some text `t`.
pub open spec fn yields<B: Fn(&str) -> u32>(f: B, t: Seq<char>, r: u32) -> bool {
    exists|s: &str| s@ == t && #[trigger] call_ensures(f, (s,), r)
}

/// Whether `f` gives the same bits for the same text.
pub open spec fn deterministic<B: Fn(&str) -> u32>(f: B) -> bool {
    forall|s: &str, t: &str, x: u32, y: u32|
        s@ == t@ && #[trigger] call_ensures(f, (s,), x) && #[trigger] call_ensures(f, (t,), y) ==> x == y
}

proof fn lemma_host<F, G, B: Fn(&str) -> u32>(context: Context<F, G>, float_bits: B)
    requires
        context.wf(),
        forall|s: &str| call_requires(float_bits, (s,)),
        deterministic(float_bits),
    ensures
        host_of(context, float_bits, host(context, float_bits)),
{
    let h = host(context, float_bits);
    assert forall|s: &str, r: u32| call_ensures(float_bits, (s,), r) implies r == (h.float_bits)(s@) by {
        assert(yields(float_bits, s@, r));
        let r2 = (h.float_bits)(s@);
        assert(yields(float_bits, s@, r2));
        let s2 = choose|s2: &str| s2@ == s@ && #[trigger] call_ensures(float_bits, (s2,), r2);
        assert(call_ensures(float_bits, (s2,), r2));
    }
}

/// `x` kept to what a `usize` holds.
spec fn sat(x: int) -> int {
    if x > usize::MAX {
        usize::MAX as int
    } else {
        x
    }
}

/// Links the main code and the chunks into the program's bytecode, as `link` says; `None`
/// where the start of a chunk's code does not fit an `i16`.
#[verifier::loop_isolation(false)]
fn link_chunks(main: &Vec<u8>, chunks: &Vec<FunctionCode>) -> (r: Option<Vec<u8>>)
    ensures
        match link(main@, chunks_of(chunks@)) {
            None => r is None,
            Some(b) => r matches Some(v) && v@ == b,
        },
{
    let ghost c = chunks_of(chunks@);
    let ghost n = c.len() as int;
    let mut sig: usize = 0;
    let mut i: usize = 0;
    while i < chunks.len()
        invariant
            i <= chunks@.len(),
            c == chunks_of(chunks@),
            n == chunks@.len(),
            sig as int == sat(signatures_len(c, i as int)),
        decreases chunks.len() - i,
    {
        sig = sig.saturating_add(5).saturating_add(byte_len(&chunks[i].name));
        i += 1;
    }
    let ghost base = code_start(main@, c);
    let mut offset: usize = sig.saturating_add(main.len());
    let mut out = BytecodeBuilder::new();
    let mut k: usize = 0;
    proof {
        assert(out@ =~= signatures(c, 0, base));
    }
    while k < chunks.len()
        invariant
            k <= chunks@.len(),
            c == chunks_of(chunks@),
            n == chunks@.len(),
            offset as int == sat(chunk_offset(c, k as int, base)),
            out@ == signatures(c, k as int, base),
            forall|j: int| 0 <= j < k ==> #[trigger] chunk_offset(c, j, base) <= i16::MAX,
        decreases chunks.len() - k,
    {
        if offset > 32767 {
            proof {
                assert(chunk_offset(c, k as int, base) > i16::MAX);
                assert(0 <= k < c.len());
                assert(overflows(c, base));
            }
            return None;
        }
        let ghost before = out@;
        out.add_op(ByteCode::FunctionSignature).add_string(chunks[k].name.as_str()).add_byte(chunks[k].local_count).add_i16(&(offset as i16));
        proof {
            assert(out@ =~= before + signature(c[k as int], chunk_offset(c, k as int, base)));
        }
        offset = offset.saturating_add(chunks[k].bytes.len());
        k += 1;
    }
    proof {
        assert(!overflows(c, base));
    }
    out.add_byte_array(main.as_slice());
    let mut m: usize = 0;
    let ghost sigs = signatures(c, n, base);
    proof {
        assert(bodies(c, 0) =~= Seq::<u8>::empty());
        assert(out@ =~= sigs + main@ + bodies(c, 0));
    }
    while m < chunks.len()
        invariant
            m <= chunks@.len(),
            c == chunks_of(chunks@),
            n == chunks@.len(),
            out@ == sigs + main@ + bodies(c, m as int),
        decreases chunks.len() - m,
    {
        out.add_byte_array(chunks[m].bytes.as_slice());
        proof {
            assert(out@ =~= sigs + main@ + bodies(c, m + 1));
        }
        m += 1;
    }
    Some(out.into_bytes())
}

/// Generates the bytecode of a program: `None` where generation panics, the errors where it
/// reported some, else the bytecode, as `program_code` says of the host that `context` and
/// `float_bits` make.
#[verifier::loop_isolation(false)]
pub fn codegen<F, G, B: Fn(&str) -> u32>(
    expressions: &Vec<Expr>,
    context: &Context<F, G>,
    float_bits: &B,
) -> (r: Option<Result<Vec<u8>, Diagnostics>>)
    requires
        context.wf(),
        forall|s: &str| call_requires(*float_bits, (s,)),
        deterministic(*float_bits),
    ensures
        match program_code(nodes_of(expressions@), host(*context, *float_bits)) {
            None => r is None,
            Some(Ok(b)) => r matches Some(Ok(v)) && v@ == b,
            Some(Err(es)) => r matches Some(Err(d)) && d.errors() == es,
        },
{
    let ghost h = host(*context, *float_bits);
    proof {
        lemma_host(*context, *float_bits);
    }
    let mut g = Codegen { chunks: Vec::new(), diagnostics: Diagnostics::new() };
    let mut frame = Frame { bytecode: BytecodeBuilder::new(), env: Vec::new(), locals: Vec::new() };
    frame.bytecode.add_op(ByteCode::FunctionChunk).add_string("main");
    let ghost ns = nodes_of(expressions@);
    let ghost st0 = gst(g, frame);
    proof {
        lemma_nodes_of_index(expressions@);
        assert(ns.subrange(0, ns.len() as int) =~= ns);
        assert(frame.bytecode@ =~= seq![opcode(ByteCode::FunctionChunk)] + string_operand("main"@));
        assert(slots_of(frame.env@) =~= Map::<Seq<char>, u8>::empty());
        assert(names_of(frame.locals@) =~= Seq::<Seq<char>>::empty());
        assert(chunks_of(g.chunks@) =~= Seq::<Chunk>::empty());
        assert(st0 == CState {
            bytes: seq![opcode(ByteCode::FunctionChunk)] + string_operand("main"@),
            env: Map::empty(),
            locals: Seq::empty(),
            chunks: Seq::empty(),
            errors: Seq::empty(),
        });
    }
    let mut i: usize = 0;
    while i < expressions.len()
        invariant
            i <= expressions@.len(),
            ns == nodes_of(expressions@),
            ns.len() == expressions@.len(),
            forall|j: int| 0 <= j < expressions@.len() ==> #[trigger] ns[j] == node_of(expressions@[j]),
            p_emit_all(ns, h, st0) == p_emit_all(ns.subrange(i as int, ns.len() as int), h, gst(g, frame)),
            host_of(*context, *float_bits, h),
        decreases expressions.len() - i,
    {
        proof {
            unfold_p_emit_all(ns.subrange(i as int, ns.len() as int), h, gst(g, frame));
            assert(ns.subrange(i as int, ns.len() as int).subrange(1, ns.len() - i)
                =~= ns.subrange(i + 1, ns.len() as int));
            assert(ns.subrange(i as int, ns.len() as int)[0] == ns[i as int]);
        }
        if !g.emit_expr(&expressions[i], &mut frame, context, float_bits, Ghost(h)) {
            return None;
        }
        i += 1;
    }
    proof {
        unfold_p_emit_all(ns.subrange(i as int, ns.len() as int), h, gst(g, frame));
    }
    if g.diagnostics.has_errors() {
        return Some(Err(g.diagnostics));
    }
    frame.bytecode.add_op(ByteCode::Return);
    let main = frame.bytecode.into_bytes();
    match link_chunks(&main, &g.chunks) {
        None => None,
        Some(b) => Some(Ok(b)),
    }
}

/// The bytes of a binary operator, appended.
fn add_binary(b: &mut BytecodeBuilder, op: &BinaryOperator)
    ensures
        final(b)@ == old(b)@ + binary_code(*op),
{
    let ghost start = b@;
    match op {
        BinaryOperator::IntegerOperation(a) => {
            b.add_op(match a {
                ArithmeticOperations::Addition => ByteCode::IntegerAddition,
                ArithmeticOperations::Subtraction => ByteCode::IntegerSubtraction,
                ArithmeticOperations::Multiplication => ByteCode::IntegerMultiplication,
                ArithmeticOperations::Division => ByteCode::IntegerDivision,
                ArithmeticOperations::Modulus => ByteCode::IntegerModulo,
            });
        },
        BinaryOperator::FloatOperation(a) => {
            b.add_op(match a {
                ArithmeticOperations::Addition => ByteCode::FloatAddition,
                ArithmeticOperations::Subtraction => ByteCode::FloatSubtraction,
                ArithmeticOperations::Multiplication => ByteCode::FloatMultiplication,
                ArithmeticOperations::Division => ByteCode::FloatDivision,
                ArithmeticOperations::Modulus => ByteCode::FloatModulo,
            });
        },
        BinaryOperator::BooleanOperation(o) => {
            b.add_op(match o {
                BooleanOperations::And => ByteCode::BooleanAnd,
                BooleanOperations::Or => ByteCode::BooleanOr,
            });
        },
        BinaryOperator::StringOperation(_) => {
            b.add_op(ByteCode::StringConcat);
        },
        BinaryOperator::IntegerComparison(c) => match c {
            Comparisons::LessThan => {
                b.add_op(ByteCode::IntegerLessThan);
            },
            Comparisons::LessThanEqual => {
                b.add_op(ByteCode::IntegerLessThanEquals);
            },
            Comparisons::GreaterThan => {
                b.add_op(ByteCode::IntegerLessThanEquals);
                b.add_op(ByteCode::Not);
            },
            Comparisons::GreaterThanEqual => {
                b.add_op(ByteCode::IntegerLessThan);
                b.add_op(ByteCode::Not);
            },
        },
        BinaryOperator::FloatComparison(c) => match c {
            Comparisons::LessThan => {
                b.add_op(ByteCode::FloatLessThan);
            },
            Comparisons::LessThanEqual => {
                b.add_op(ByteCode::FloatLessThanEquals);
            },
            Comparisons::GreaterThan => {
                b.add_op(ByteCode::FloatLessThanEquals);
                b.add_op(ByteCode::Not);
            },
            Comparisons::GreaterThanEqual => {
                b.add_op(ByteCode::FloatLessThan);
                b.add_op(ByteCode::Not);
            },
        },
        BinaryOperator::Equality(e) => match e {
            EqualityOperations::Equal => {
                b.add_op(ByteCode::Equals);
            },
            EqualityOperations::NotEqual => {
                b.add_op(ByteCode::Equals);
                b.add_op(ByteCode::Not);
            },
        },
    }
    proof {
        assert(b@ =~= start + binary_code(*op));
    }
}

} // verus!

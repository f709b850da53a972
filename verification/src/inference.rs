use vstd::prelude::*;

use crate::expressions::{Arg, Arm, BinaryOperator, Node, Pattern, UnaryOperator, Val};
use crate::errors::Error;
use crate::tokens::Token;
use crate::unification::{Mismatch, Ty, Type, TypeVariable, unifiable, unification};

verus! {

/// What inference has found so far: the type of each name, the last type variable handed
/// out, the constraints to solve and the errors.
pub struct TState {
    pub env: Map<Seq<char>, Ty>,
    pub last: int,
    pub constraints: Seq<(Ty, Ty)>,
    pub errors: Seq<Error>,
}

/// The type `typ` without arguments, at `token`.
pub open spec fn con(typ: Type, token: Token) -> Ty {
    Ty::Con { typ, generics: Seq::empty(), token }
}

/// Whether one more type variable can be handed out.
pub open spec fn can_fresh(st: TState) -> bool {
    st.last + 1 <= usize::MAX
}

/// The state after handing out a type variable.
pub open spec fn freshened(st: TState) -> TState {
    TState { last: st.last + 1, ..st }
}

/// The type variable handed out next.
pub open spec fn next_var(st: TState) -> Ty {
    Ty::Var((st.last + 1) as TypeVariable)
}

/// The state with the constraint that `a` is `b` added.
pub open spec fn constrained(st: TState, a: Ty, b: Ty) -> TState {
    TState { constraints: st.constraints.push((a, b)), ..st }
}

/// The state with `name` of type `t`.
pub open spec fn bound(st: TState, name: Seq<char>, t: Ty) -> TState {
    TState { env: st.env.insert(name, t), ..st }
}

/// The type of each parameter of a function: a new variable each, bound to its name, in order.
pub open spec fn infer_params(params: Seq<Token>, st: TState, acc: Seq<Ty>) -> Option<(Seq<Ty>, TState)>
    decreases params.len(),
{
    if params.len() == 0 {
        Some((acc, st))
    } else if !can_fresh(st) {
        None
    } else {
        let v = next_var(st);
        infer_params(params.skip(1), bound(freshened(st), params[0].lexeme@, v), acc.push(v))
    }
}

/// The type of an expression, and the state after; `None` where inference panics.
pub open spec fn infer_step(n: Node, st: TState) -> Option<(Ty, TState)>
    decreases n, 0int,
{
    match n {
        Node::Identifier(name) => if st.env.contains_key(name.lexeme@) {
            Some((st.env[name.lexeme@], st))
        } else if !can_fresh(st) {
            None
        } else {
            Some((next_var(st), TState { errors: st.errors.push(Error::NameNotFound { token: name }), ..freshened(st) }))
        },
        Node::Value(v, token) => match v {
            Val::Boolean(_) => Some((con(Type::Boolean, token), st)),
            Val::Integer(_) => Some((con(Type::Integer, token), st)),
            Val::Float(_) => Some((con(Type::Float, token), st)),
            Val::String(_) => Some((con(Type::String, token), st)),
            Val::Function(params, body) => match infer_params(params, st, Seq::empty()) {
                None => None,
                Some((ps, s1)) => match p_infer(*body, s1) {
                    None => None,
                    Some((vt, s2)) => Some((Ty::Con { typ: Type::Function, generics: ps.push(vt), token }, s2)),
                },
            },
        },
        Node::Call(name, args) => match p_infer_args(args, st, Seq::empty()) {
            None => None,
            Some((ats, s1)) => if !can_fresh(s1) {
                None
            } else {
                let rt = next_var(s1);
                let s2 = freshened(s1);
                if s2.env.contains_key(name.lexeme@) {
                    Some(
                        (
                            rt,
                            constrained(
                                s2,
                                s2.env[name.lexeme@],
                                Ty::Con { typ: Type::Function, generics: ats.push(rt), token: name },
                            ),
                        ),
                    )
                } else {
                    Some((rt, TState { errors: s2.errors.push(Error::FunctionNotFound { name: name.lexeme }), ..s2 }))
                }
            },
        },
        Node::Assignment(name, _, e) => match p_infer(*e, st) {
            None => None,
            Some((t, s1)) => Some((t, bound(s1, name.lexeme@, t))),
        },
        Node::Block(es) => match p_infer_block(es, st, None) {
            None => None,
            Some((o, s1)) => match o {
                None => None,
                Some(t) => Some((t, s1)),
            },
        },
        Node::Binary(l, op, token, r) => match op {
            BinaryOperator::IntegerOperation(_) => match p_expect(*l, con(Type::Integer, token), st) {
                None => None,
                Some(s1) => match p_expect(*r, con(Type::Integer, token), s1) {
                    None => None,
                    Some(s2) => Some((con(Type::Integer, token), s2)),
                },
            },
            BinaryOperator::IntegerComparison(_) => match p_expect(*l, con(Type::Integer, token), st) {
                None => None,
                Some(s1) => match p_expect(*r, con(Type::Integer, token), s1) {
                    None => None,
                    Some(s2) => Some((con(Type::Boolean, token), s2)),
                },
            },
            BinaryOperator::FloatOperation(_) => match p_expect(*l, con(Type::Float, token), st) {
                None => None,
                Some(s1) => match p_expect(*r, con(Type::Float, token), s1) {
                    None => None,
                    Some(s2) => Some((con(Type::Float, token), s2)),
                },
            },
            BinaryOperator::FloatComparison(_) => match p_expect(*l, con(Type::Float, token), st) {
                None => None,
                Some(s1) => match p_expect(*r, con(Type::Float, token), s1) {
                    None => None,
                    Some(s2) => Some((con(Type::Boolean, token), s2)),
                },
            },
            BinaryOperator::Equality(_) => match p_infer(*l, st) {
                None => None,
                Some((lt, s1)) => match p_expect(*r, lt, s1) {
                    None => None,
                    Some(s2) => Some((con(Type::Boolean, token), s2)),
                },
            },
            BinaryOperator::BooleanOperation(_) => match p_expect(*l, con(Type::Boolean, token), st) {
                None => None,
                Some(s1) => match p_expect(*r, con(Type::Boolean, token), s1) {
                    None => None,
                    Some(s2) => Some((con(Type::Boolean, token), s2)),
                },
            },
            BinaryOperator::StringOperation(_) => match p_expect(*l, con(Type::String, token), st) {
                None => None,
                Some(s1) => Some((con(Type::String, token), s1)),
            },
        },
        Node::Unary(op, token, e) => match op {
            UnaryOperator::Negation => p_infer(*e, st),
            UnaryOperator::Not => match p_expect(*e, con(Type::Boolean, token), st) {
                None => None,
                Some(s1) => Some((con(Type::Boolean, token), s1)),
            },
        },
        Node::Grouping(e) => p_infer(*e, st),
        Node::Is(e, arms) => match p_infer(*e, st) {
            None => None,
            Some((it, s1)) => match p_infer_arms(arms, it, None, s1) {
                None => None,
                Some((rt, s2)) => match rt {
                    None => None,
                    Some(rt) => {
                        let s3 = match *e {
                            Node::Identifier(name) => bound(s2, name.lexeme@, it),
                            _ => s2,
                        };
                        Some((rt, s3))
                    },
                },
            },
        },
    }
}

/// What `infer_step` gives; closed, so that each use unfolds it one step at a time.
pub closed spec fn p_infer(n: Node, st: TState) -> Option<(Ty, TState)>
    decreases n, 1int,
{
    infer_step(n, st)
}

/// The types of call arguments, in order, after `acc`.
pub open spec fn infer_args_step(args: Seq<Arg>, st: TState, acc: Seq<Ty>) -> Option<(Seq<Ty>, TState)>
    decreases args, 0int,
{
    if args.len() == 0 {
        Some((acc, st))
    } else {
        match p_infer(args[0].node, st) {
            None => None,
            Some((t, s1)) => p_infer_args(args.subrange(1, args.len() as int), s1, acc.push(t)),
        }
    }
}

/// What `infer_args_step` gives; closed, so that each use unfolds it one step at a time.
pub closed spec fn p_infer_args(args: Seq<Arg>, st: TState, acc: Seq<Ty>) -> Option<(Seq<Ty>, TState)>
    decreases args, 1int,
{
    infer_args_step(args, st, acc)
}

/// The type of the last of the expressions of a block, each inferred in order; `last` is the
/// type of the one before.
pub open spec fn infer_block_step(es: Seq<Node>, st: TState, last: Option<Ty>) -> Option<(Option<Ty>, TState)>
    decreases es, 0int,
{
    if es.len() == 0 {
        Some((last, st))
    } else {
        match p_infer(es[0], st) {
            None => None,
            Some((t, s1)) => p_infer_block(es.subrange(1, es.len() as int), s1, Some(t)),
        }
    }
}

/// What `infer_block_step` gives; closed, so that each use unfolds it one step at a time.
pub closed spec fn p_infer_block(es: Seq<Node>, st: TState, last: Option<Ty>) -> Option<(Option<Ty>, TState)>
    decreases es, 1int,
{
    infer_block_step(es, st, last)
}

/// The arms of an `is` expression whose subject has type `it`: each pattern is checked against
/// it, a capture is bound to it, and each block has the type of the first.
pub open spec fn infer_arms_step(arms: Seq<Arm>, it: Ty, rt: Option<Ty>, st: TState) -> Option<(Option<Ty>, TState)>
    decreases arms, 0int,
{
    if arms.len() == 0 {
        Some((rt, st))
    } else {
        let arm = arms[0];
        let s1: Option<TState> = match arm.pattern {
            Pattern::Expression(p) => p_expect(p, it, st),
            Pattern::Capture(id, cond) => {
                let b = bound(st, id.lexeme@, it);
                match cond {
                    Some(c) => p_expect(c, con(Type::Boolean, id), b),
                    None => Some(b),
                }
            },
            Pattern::Default => Some(st),
        };
        match s1 {
            None => None,
            Some(s1) => {
                let s2: Option<(Ty, TState)> = match rt {
                    Some(t) => match p_expect(arm.block, t, s1) {
                        None => None,
                        Some(s) => Some((t, s)),
                    },
                    None => p_infer(arm.block, s1),
                };
                match s2 {
                    None => None,
                    Some((t, s2)) => p_infer_arms(arms.subrange(1, arms.len() as int), it, Some(t), s2),
                }
            },
        }
    }
}

/// What `infer_arms_step` gives; closed, so that each use unfolds it one step at a time.
pub closed spec fn p_infer_arms(arms: Seq<Arm>, it: Ty, rt: Option<Ty>, st: TState) -> Option<(Option<Ty>, TState)>
    decreases arms, 1int,
{
    infer_arms_step(arms, it, rt, st)
}

/// The state after inferring `n` and adding the constraint that its type is `t`.
pub open spec fn expect_step(n: Node, t: Ty, st: TState) -> Option<TState>
    decreases n, 2int,
{
    match p_infer(n, st) {
        None => None,
        Some((a, s1)) => Some(constrained(s1, a, t)),
    }
}

/// What `expect_step` gives; closed, so that each use unfolds it one step at a time.
pub closed spec fn p_expect(n: Node, t: Ty, st: TState) -> Option<TState>
    decreases n, 3int,
{
    expect_step(n, t, st)
}

/// The state after inferring each of `es` in order.
pub open spec fn infer_all(es: Seq<Node>, st: TState) -> Option<TState>
    decreases es.len(),
{
    if es.len() == 0 {
        Some(st)
    } else {
        match p_infer(es[0], st) {
            None => None,
            Some((_, s1)) => infer_all(es.subrange(1, es.len() as int), s1),
        }
    }
}

/// Solving the constraints `cs` in order under the bindings `s`: the bindings after and the
/// mismatches found; `None` where unification does not finish.
pub open spec fn solve(cs: Seq<(Ty, Ty)>, s: Map<TypeVariable, Ty>) -> Option<(Map<TypeVariable, Ty>, Seq<Mismatch>)>
    decreases cs.len(),
{
    if cs.len() == 0 {
        Some((s, Seq::empty()))
    } else if !unifiable(cs[0].0, cs[0].1, s) {
        None
    } else {
        let (s1, m1) = unification(cs[0].0, cs[0].1, s);
        match solve(cs.subrange(1, cs.len() as int), s1) {
            None => None,
            Some((s2, m2)) => Some((s2, m1 + m2)),
        }
    }
}

/// The inference state of a program that starts with nothing known and the errors `errors`.
pub open spec fn start(errors: Seq<Error>) -> TState {
    TState { env: Map::empty(), last: 0, constraints: Seq::empty(), errors }
}

/// What type checking `es` after the errors `errors` finds: the errors with those of
/// inference added in order, and the mismatches of solving the constraints, which follow
/// them; `None` where the checker panics or never returns.
pub open spec fn check_spec(es: Seq<Node>, errors: Seq<Error>) -> Option<(Seq<Error>, Seq<Mismatch>)> {
    match infer_all(es, start(errors)) {
        None => None,
        Some(st) => match solve(st.constraints, Map::empty()) {
            None => None,
            Some((_, ms)) => Some((st.errors, ms)),
        },
    }
}

/// `p_infer` is `infer_step`.
pub proof fn unfold_p_infer(n: Node, st: TState)
    ensures
        p_infer(n, st) == infer_step(n, st),
{
}

/// `p_infer_args` is `infer_args_step`.
pub proof fn unfold_p_infer_args(args: Seq<Arg>, st: TState, acc: Seq<Ty>)
    ensures
        p_infer_args(args, st, acc) == infer_args_step(args, st, acc),
{
}

/// `p_infer_block` is `infer_block_step`.
pub proof fn unfold_p_infer_block(es: Seq<Node>, st: TState, last: Option<Ty>)
    ensures
        p_infer_block(es, st, last) == infer_block_step(es, st, last),
{
}

/// `p_infer_arms` is `infer_arms_step`.
pub proof fn unfold_p_infer_arms(arms: Seq<Arm>, it: Ty, rt: Option<Ty>, st: TState)
    ensures
        p_infer_arms(arms, it, rt, st) == infer_arms_step(arms, it, rt, st),
{
}

/// `p_expect` is `expect_step`.
pub proof fn unfold_p_expect(n: Node, t: Ty, st: TState)
    ensures
        p_expect(n, t, st) == expect_step(n, t, st),
{
}

/// The type of what a binary operator gives: integers from integer arithmetic, floats from
/// float arithmetic, texts from joining texts, and booleans from comparisons, equality tests
/// and boolean operators.
pub open spec fn result_type(op: BinaryOperator) -> Type {
    match op {
        BinaryOperator::IntegerOperation(_) => Type::Integer,
        BinaryOperator::FloatOperation(_) => Type::Float,
        BinaryOperator::StringOperation(_) => Type::String,
        BinaryOperator::IntegerComparison(_) => Type::Boolean,
        BinaryOperator::FloatComparison(_) => Type::Boolean,
        BinaryOperator::Equality(_) => Type::Boolean,
        BinaryOperator::BooleanOperation(_) => Type::Boolean,
    }
}

/// A binary expression has the type of what its operator gives, whatever its operands are:
/// a comparison (of integers or of floats) or an equality test is a boolean, arithmetic keeps
/// the kind of number; the type is a plain one, marked with the operator's token.
pub proof fn law_binary_type(l: Node, op: BinaryOperator, token: Token, r: Node, st: TState)
    ensures
        p_infer(Node::Binary(Box::new(l), op, token, Box::new(r)), st) matches Some((t, _)) ==> t
            == (Ty::Con { typ: result_type(op), generics: Seq::empty(), token }),
{
    unfold_p_infer(Node::Binary(Box::new(l), op, token, Box::new(r)), st);
}

/// Negating a boolean gives a boolean.
pub proof fn law_not_type(e: Node, token: Token, st: TState)
    ensures
        p_infer(Node::Unary(UnaryOperator::Not, token, Box::new(e)), st) matches Some((t, _)) ==> t
            == (Ty::Con { typ: Type::Boolean, generics: Seq::empty(), token }),
{
    unfold_p_infer(Node::Unary(UnaryOperator::Not, token, Box::new(e)), st);
}

} // verus!

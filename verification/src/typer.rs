use std::collections::HashMap;

use vstd::prelude::*;

use crate::diagnostics::Diagnostics;
use crate::errors::Error;
use crate::expressions::{
    Arg, Arm, BinaryOperator, Expr, ExprWithPosition, IsArm, IsArmPattern, Node, Pattern,
    UnaryOperator, ValueType, args_of, arms_of, node_of, nodes_of, pattern_of, val_of,
};
use crate::inference::{
    TState, bound, can_fresh, check_spec, con, constrained, expect_step, freshened, infer_all,
    infer_args_step, infer_arms_step, infer_block_step, infer_params, infer_step, next_var,
    p_expect, p_infer, p_infer_args, p_infer_arms, p_infer_block, solve, start, unfold_p_expect,
    unfold_p_infer, unfold_p_infer_args, unfold_p_infer_arms, unfold_p_infer_block,
};
use crate::program::Context;
use crate::tokens::Token;
use crate::unification::{
    Ty, Type, TypeVariable, UnificationType, bindings, lemma_reports_append, lemma_reports_none,
    lemma_tys_of_index, make_constructor, reports, resolve, try_unify, tys_of, unifiable,
    unification,
};
use crate::termination::{law_unify_resolvable, resolvable, resolves};

verus! {

broadcast use vstd::std_specs::vec::group_vec_axioms;

/// The types of the names in `s`; a later entry for a name hides an earlier one.
pub open spec fn env_of(s: Seq<(String, UnificationType)>) -> Map<Seq<char>, Ty>
    decreases s.len(),
{
    if s.len() == 0 {
        Map::empty()
    } else {
        env_of(s.drop_last()).insert(s.last().0@, s.last().1@)
    }
}

/// The values of a sequence of constraints.
pub open spec fn cons_of(s: Seq<(UnificationType, UnificationType)>) -> Seq<(Ty, Ty)> {
    s.map_values(|p: (UnificationType, UnificationType)| (p.0@, p.1@))
}

/// The state of type inference: the type of each name, the last type variable handed out
/// and the constraints found.
struct Inference {
    env: Vec<(String, UnificationType)>,
    last: usize,
    constraints: Vec<(UnificationType, UnificationType)>,
}

/// The inference state of `inf` with the errors `errors`.
spec fn state(inf: Inference, errors: Seq<Error>) -> TState {
    TState {
        env: env_of(inf.env@),
        last: inf.last as int,
        constraints: cons_of(inf.constraints@),
        errors,
    }
}

/// The value of an optional type.
spec fn opt_ty(o: Option<UnificationType>) -> Option<Ty> {
    match o {
        Some(t) => Some(t@),
        None => None,
    }
}

/// Whether `r` and the state `s` are what the rule `p` gives.
spec fn got(p: Option<(Ty, TState)>, r: Option<UnificationType>, s: TState) -> bool {
    match r {
        None => p is None,
        Some(t) => p == Some((t@, s)),
    }
}

/// The entries after `i` in `s` do not name `name`, so `name` has the type it has in the
/// first `i` entries.
proof fn lemma_env_prefix(s: Seq<(String, UnificationType)>, i: int, name: Seq<char>)
    requires
        0 <= i <= s.len(),
        forall|j: int| i <= j < s.len() ==> (#[trigger] s[j]).0@ != name,
    ensures
        env_of(s).contains_key(name) == env_of(s.subrange(0, i)).contains_key(name),
        env_of(s).contains_key(name) ==> env_of(s)[name] == env_of(s.subrange(0, i))[name],
    decreases s.len() - i,
{
    if i < s.len() {
        let t = s.drop_last();
        assert(t.subrange(0, i) =~= s.subrange(0, i));
        lemma_env_prefix(t, i, name);
    } else {
        assert(s.subrange(0, i) =~= s);
    }
}

proof fn lemma_tys_push(s: Seq<UnificationType>, t: UnificationType)
    ensures
        tys_of(s.push(t)) == tys_of(s).push(t@),
{
    assert(s.push(t).drop_last() =~= s);
}

pub(crate) proof fn lemma_args_of_index(s: Seq<ExprWithPosition>)
    ensures
        args_of(s).len() == s.len(),
        forall|j: int| 0 <= j < s.len() ==> #[trigger] args_of(s)[j] == (Arg { node: node_of(s[j].expr), position: s[j].position }),
    decreases s.len(),
{
    if s.len() > 0 {
        lemma_args_of_index(s.drop_last());
    }
}

pub(crate) proof fn lemma_nodes_of_index(s: Seq<Expr>)
    ensures
        nodes_of(s).len() == s.len(),
        forall|j: int| 0 <= j < s.len() ==> #[trigger] nodes_of(s)[j] == node_of(s[j]),
    decreases s.len(),
{
    if s.len() > 0 {
        lemma_nodes_of_index(s.drop_last());
    }
}

pub(crate) proof fn lemma_arms_of_index(s: Seq<IsArm>)
    ensures
        arms_of(s).len() == s.len(),
        forall|j: int| 0 <= j < s.len() ==> #[trigger] arms_of(s)[j] == (Arm { pattern: pattern_of(s[j].pattern), block: node_of(s[j].block) }),
    decreases s.len(),
{
    if s.len() > 0 {
        lemma_arms_of_index(s.drop_last());
    }
}

impl Inference {
    /// The type of `name`, if it has one.
    fn lookup(&self, name: &String) -> (r: Option<UnificationType>)
        ensures
            match r {
                Some(t) => env_of(self.env@).contains_key(name@) && t@ == env_of(self.env@)[name@],
                None => !env_of(self.env@).contains_key(name@),
            },
    {
        let mut i = self.env.len();
        while i > 0
            invariant
                i <= self.env@.len(),
                forall|j: int| i <= j < self.env@.len() ==> (#[trigger] self.env@[j]).0@ != name@,
            decreases i,
        {
            if self.env[i - 1].0.eq(name) {
                proof {
                    lemma_env_prefix(self.env@, i as int, name@);
                    assert(self.env@.subrange(0, i as int).drop_last() =~= self.env@.subrange(0, i - 1));
                }
                return Some(self.env[i - 1].1.clone());
            }
            i -= 1;
        }
        proof {
            lemma_env_prefix(self.env@, 0, name@);
        }
        None
    }

    /// Gives `name` the type `t`.
    fn bind(&mut self, name: String, t: UnificationType)
        ensures
            final(self).env@.len() == old(self).env@.len() + 1,
            env_of(final(self).env@) == env_of(old(self).env@).insert(name@, t@),
            final(self).last == old(self).last,
            final(self).constraints@ == old(self).constraints@,
    {
        let ghost before = self.env@;
        self.env.push((name, t));
        proof {
            assert(self.env@.drop_last() =~= before);
        }
    }

    /// Adds the constraint that `a` is `b`.
    fn constrain(&mut self, a: UnificationType, b: UnificationType)
        ensures
            cons_of(final(self).constraints@) == cons_of(old(self).constraints@).push((a@, b@)),
            final(self).env@ == old(self).env@,
            final(self).last == old(self).last,
    {
        self.constraints.push((a, b));
        proof {
            assert(cons_of(self.constraints@) =~= cons_of(old(self).constraints@).push((a@, b@)));
        }
    }

    /// A new type variable.
    fn fresh(&mut self) -> (r: Option<UnificationType>)
        ensures
            final(self).env@ == old(self).env@,
            final(self).constraints@ == old(self).constraints@,
            r is None <==> old(self).last == usize::MAX,
            r matches Some(t) ==> t@ == Ty::Var((old(self).last + 1) as TypeVariable),
            r is Some ==> final(self).last == old(self).last + 1,
    {
        if self.last == usize::MAX {
            return None;
        }
        self.last = self.last + 1;
        Some(UnificationType::Variable(self.last))
    }

    /// The state after inferring `e` and adding the constraint that its type is `t`, as
    /// `p_expect` says.
    fn expect(&mut self, e: &Expr, t: UnificationType, d: &mut Diagnostics) -> (r: Option<()>)
        ensures
            match r {
                None => p_expect(node_of(*e), t@, state(*old(self), old(d).errors())) is None,
                Some(_) => p_expect(node_of(*e), t@, state(*old(self), old(d).errors())) == Some(
                    state(*final(self), final(d).errors()),
                ),
            },
        decreases e, 1int,
    {
        proof {
            unfold_p_expect(node_of(*e), t@, state(*self, d.errors()));
        }
        match self.infer_type(e, d) {
            None => None,
            Some(a) => {
                self.constrain(a, t);
                Some(())
            },
        }
    }

    /// The type of `e`, as `p_infer` says.
    #[verifier::spinoff_prover]
    #[verifier::loop_isolation(false)]
    fn infer_type(&mut self, e: &Expr, d: &mut Diagnostics) -> (r: Option<UnificationType>)
        ensures
            got(
                p_infer(node_of(*e), state(*old(self), old(d).errors())),
                r,
                state(*final(self), final(d).errors()),
            ),
        decreases e, 0int,
    {
        proof {
            unfold_p_infer(node_of(*e), state(*self, d.errors()));
            reveal_with_fuel(node_of, 2);
        }
        match e {
            Expr::Identifier { name } => match self.lookup(&name.lexeme) {
                Some(t) => Some(t),
                None => {
                    if self.last == usize::MAX {
                        return None;
                    }
                    d.add_error(Error::NameNotFound { token: name.clone() });
                    self.fresh()
                },
            },
            Expr::Value { value, token } => match value {
                ValueType::Boolean(_) => Some(make_constructor(Type::Boolean, token.clone())),
                ValueType::Integer(_) => Some(make_constructor(Type::Integer, token.clone())),
                ValueType::Float(_) => Some(make_constructor(Type::Float, token.clone())),
                ValueType::String(_) => Some(make_constructor(Type::String, token.clone())),
                ValueType::Function { params, expr } => {
                    let ghost st0 = state(*self, d.errors());
                    let mut types: Vec<UnificationType> = Vec::new();
                    let mut i: usize = 0;
                    proof {
                        assert(params@.skip(0) =~= params@);
                        assert(tys_of(types@) =~= Seq::<Ty>::empty());
                    }
                    while i < params.len()
                        invariant
                            i <= params@.len(),
                            infer_params(params@, st0, Seq::empty()) == infer_params(
                                params@.skip(i as int),
                                state(*self, d.errors()),
                                tys_of(types@),
                            ),
                        decreases params.len() - i,
                    {
                        proof {
                            assert(params@.skip(i as int).skip(1) =~= params@.skip(i + 1));
                            assert(params@.skip(i as int)[0] == params@[i as int]);
                        }
                        match self.fresh() {
                            None => return None,
                            Some(v) => {
                                let c = v.clone();
                                proof {
                                    lemma_tys_push(types@, c);
                                }
                                types.push(c);
                                self.bind(params[i].lexeme.clone(), v);
                            },
                        }
                        i += 1;
                    }
                    proof {
                        assert(params@.skip(i as int) =~= Seq::<Token>::empty());
                    }
                    match self.infer_type(expr, d) {
                        None => None,
                        Some(vt) => {
                            proof {
                                lemma_tys_push(types@, vt);
                            }
                            types.push(vt);
                            Some(
                                UnificationType::Constructor {
                                    typ: Type::Function,
                                    generics: types,
                                    token: token.clone(),
                                },
                            )
                        },
                    }
                },
            },
            Expr::Call { name, args } => {
                let ghost a = args_of(args@);
                proof {
                    lemma_args_of_index(args@);
                    assert(a.subrange(0, a.len() as int) =~= a);
                    assert(tys_of(Seq::<UnificationType>::empty()) =~= Seq::<Ty>::empty());
                }
                let ghost st0 = state(*self, d.errors());
                let mut types: Vec<UnificationType> = Vec::new();
                let mut i: usize = 0;
                while i < args.len()
                    invariant
                        i <= args@.len(),
                        a == args_of(args@),
                        a.len() == args@.len(),
                        forall|j: int|
                            0 <= j < args@.len() ==> #[trigger] a[j] == (Arg {
                                node: node_of(args@[j].expr),
                                position: args@[j].position,
                            }),
                        p_infer_args(a, st0, Seq::empty()) == p_infer_args(
                            a.subrange(i as int, a.len() as int),
                            state(*self, d.errors()),
                            tys_of(types@),
                        ),
                        *e == (Expr::Call { name: *name, args: *args }),
                    decreases args.len() - i,
                {
                    proof {
                        unfold_p_infer_args(
                            a.subrange(i as int, a.len() as int),
                            state(*self, d.errors()),
                            tys_of(types@),
                        );
                        assert(a.subrange(i as int, a.len() as int).subrange(1, a.len() - i)
                            =~= a.subrange(i + 1, a.len() as int));
                        assert(a.subrange(i as int, a.len() as int)[0] == a[i as int]);
                        assert(decreases_to!(*e => *args));
                        assert(decreases_to!(*args => args@));
                        assert(decreases_to!(args@ => args@[i as int]));
                        assert(decreases_to!(args@[i as int] => args@[i as int].expr));
                    }
                    match self.infer_type(&args[i].expr, d) {
                        None => return None,
                        Some(t) => {
                            proof {
                                lemma_tys_push(types@, t);
                            }
                            types.push(t);
                        },
                    }
                    i += 1;
                }
                proof {
                    unfold_p_infer_args(
                        a.subrange(i as int, a.len() as int),
                        state(*self, d.errors()),
                        tys_of(types@),
                    );
                }
                match self.fresh() {
                    None => None,
                    Some(rt) => match self.lookup(&name.lexeme) {
                        Some(ft) => {
                            let c = rt.clone();
                            proof {
                                lemma_tys_push(types@, c);
                            }
                            types.push(c);
                            self.constrain(
                                ft,
                                UnificationType::Constructor {
                                    typ: Type::Function,
                                    generics: types,
                                    token: name.clone(),
                                },
                            );
                            Some(rt)
                        },
                        None => {
                            d.add_error(Error::FunctionNotFound { name: name.lexeme.clone() });
                            Some(rt)
                        },
                    },
                }
            },
            Expr::Assignment { name, _operator, expr } => match self.infer_type(expr, d) {
                None => None,
                Some(t) => {
                    self.bind(name.lexeme.clone(), t.clone());
                    Some(t)
                },
            },
            Expr::Block { exprs } => {
                let ghost ns = nodes_of(exprs@);
                proof {
                    lemma_nodes_of_index(exprs@);
                    assert(ns.subrange(0, ns.len() as int) =~= ns);
                }
                let ghost st0 = state(*self, d.errors());
                let mut last: Option<UnificationType> = None;
                let mut i: usize = 0;
                while i < exprs.len()
                    invariant
                        i <= exprs@.len(),
                        ns == nodes_of(exprs@),
                        ns.len() == exprs@.len(),
                        forall|j: int| 0 <= j < exprs@.len() ==> #[trigger] ns[j] == node_of(exprs@[j]),
                        p_infer_block(ns, st0, None) == p_infer_block(
                            ns.subrange(i as int, ns.len() as int),
                            state(*self, d.errors()),
                            opt_ty(last),
                        ),
                        *e == (Expr::Block { exprs: *exprs }),
                    decreases exprs.len() - i,
                {
                    proof {
                        unfold_p_infer_block(
                            ns.subrange(i as int, ns.len() as int),
                            state(*self, d.errors()),
                            opt_ty(last),
                        );
                        assert(ns.subrange(i as int, ns.len() as int).subrange(1, ns.len() - i)
                            =~= ns.subrange(i + 1, ns.len() as int));
                        assert(ns.subrange(i as int, ns.len() as int)[0] == ns[i as int]);
                        assert(decreases_to!(*e => *exprs));
                        assert(decreases_to!(*exprs => exprs@));
                        assert(decreases_to!(exprs@ => exprs@[i as int]));
                    }
                    match self.infer_type(&exprs[i], d) {
                        None => return None,
                        Some(t) => {
                            last = Some(t);
                        },
                    }
                    i += 1;
                }
                proof {
                    unfold_p_infer_block(
                        ns.subrange(i as int, ns.len() as int),
                        state(*self, d.errors()),
                        opt_ty(last),
                    );
                }
                last
            },
            Expr::Binary { left, operator, _token, right } => match operator {
                BinaryOperator::IntegerOperation(_) => {
                    if self.expect(left, make_constructor(Type::Integer, _token.clone()), d).is_none() {
                        return None;
                    }
                    if self.expect(right, make_constructor(Type::Integer, _token.clone()), d).is_none() {
                        return None;
                    }
                    Some(make_constructor(Type::Integer, _token.clone()))
                },
                BinaryOperator::IntegerComparison(_) => {
                    if self.expect(left, make_constructor(Type::Integer, _token.clone()), d).is_none() {
                        return None;
                    }
                    if self.expect(right, make_constructor(Type::Integer, _token.clone()), d).is_none() {
                        return None;
                    }
                    Some(make_constructor(Type::Boolean, _token.clone()))
                },
                BinaryOperator::FloatOperation(_) => {
                    if self.expect(left, make_constructor(Type::Float, _token.clone()), d).is_none() {
                        return None;
                    }
                    if self.expect(right, make_constructor(Type::Float, _token.clone()), d).is_none() {
                        return None;
                    }
                    Some(make_constructor(Type::Float, _token.clone()))
                },
                BinaryOperator::FloatComparison(_) => {
                    if self.expect(left, make_constructor(Type::Float, _token.clone()), d).is_none() {
                        return None;
                    }
                    if self.expect(right, make_constructor(Type::Float, _token.clone()), d).is_none() {
                        return None;
                    }
                    Some(make_constructor(Type::Boolean, _token.clone()))
                },
                BinaryOperator::Equality(_) => match self.infer_type(left, d) {
                    None => None,
                    Some(lt) => {
                        if self.expect(right, lt, d).is_none() {
                            return None;
                        }
                        Some(make_constructor(Type::Boolean, _token.clone()))
                    },
                },
                BinaryOperator::BooleanOperation(_) => {
                    if self.expect(left, make_constructor(Type::Boolean, _token.clone()), d).is_none() {
                        return None;
                    }
                    if self.expect(right, make_constructor(Type::Boolean, _token.clone()), d).is_none() {
                        return None;
                    }
                    Some(make_constructor(Type::Boolean, _token.clone()))
                },
                BinaryOperator::StringOperation(_) => {
                    if self.expect(left, make_constructor(Type::String, _token.clone()), d).is_none() {
                        return None;
                    }
                    Some(make_constructor(Type::String, _token.clone()))
                },
            },
            Expr::Unary { operator, _token, expr } => match operator {
                UnaryOperator::Negation => self.infer_type(expr, d),
                UnaryOperator::Not => {
                    if self.expect(expr, make_constructor(Type::Boolean, _token.clone()), d).is_none() {
                        return None;
                    }
                    Some(make_constructor(Type::Boolean, _token.clone()))
                },
            },
            Expr::Grouping(inner) => self.infer_type(inner, d),
            Expr::Is { expr, arms } => match self.infer_type(expr, d) {
                None => None,
                Some(it) => {
                    let ghost am = arms_of(arms@);
                    proof {
                        lemma_arms_of_index(arms@);
                        assert(am.subrange(0, am.len() as int) =~= am);
                    }
                    let ghost st1 = state(*self, d.errors());
                    let mut rt: Option<UnificationType> = None;
                    let mut i: usize = 0;
                    while i < arms.len()
                        invariant
                            i <= arms@.len(),
                            am == arms_of(arms@),
                            am.len() == arms@.len(),
                            forall|j: int|
                                0 <= j < arms@.len() ==> #[trigger] am[j] == (Arm {
                                    pattern: pattern_of(arms@[j].pattern),
                                    block: node_of(arms@[j].block),
                                }),
                            p_infer_arms(am, it@, None, st1) == p_infer_arms(
                                am.subrange(i as int, am.len() as int),
                                it@,
                                opt_ty(rt),
                                state(*self, d.errors()),
                            ),
                            *e == (Expr::Is { expr: *expr, arms: *arms }),
                        decreases arms.len() - i,
                    {
                        proof {
                            unfold_p_infer_arms(
                                am.subrange(i as int, am.len() as int),
                                it@,
                                opt_ty(rt),
                                state(*self, d.errors()),
                            );
                            assert(am.subrange(i as int, am.len() as int).subrange(1, am.len() - i)
                                =~= am.subrange(i + 1, am.len() as int));
                            assert(am.subrange(i as int, am.len() as int)[0] == am[i as int]);
                            assert(decreases_to!(*e => *arms));
                            assert(decreases_to!(*arms => arms@));
                            assert(decreases_to!(arms@ => arms@[i as int]));
                            assert(decreases_to!(arms@[i as int] => arms@[i as int].block));
                            assert(decreases_to!(arms@[i as int] => arms@[i as int].pattern));
                        }
                        let arm = &arms[i];
                        match &arm.pattern {
                            IsArmPattern::Expression(p) => {
                                if self.expect(p, it.clone(), d).is_none() {
                                    return None;
                                }
                            },
                            IsArmPattern::Capture { identifier, condition } => {
                                self.bind(identifier.lexeme.clone(), it.clone());
                                match condition {
                                    Some(c) => {
                                        if self.expect(
                                            c,
                                            make_constructor(Type::Boolean, identifier.clone()),
                                            d,
                                        ).is_none() {
                                            return None;
                                        }
                                    },
                                    None => {},
                                }
                            },
                            IsArmPattern::Default => {},
                        }
                        match rt {
                            Some(t) => {
                                if self.expect(&arm.block, t.clone(), d).is_none() {
                                    return None;
                                }
                                rt = Some(t);
                            },
                            None => match self.infer_type(&arm.block, d) {
                                None => return None,
                                Some(t) => {
                                    rt = Some(t);
                                },
                            },
                        }
                        i += 1;
                    }
                    proof {
                        unfold_p_infer_arms(
                            am.subrange(i as int, am.len() as int),
                            it@,
                            opt_ty(rt),
                            state(*self, d.errors()),
                        );
                    }
                    match rt {
                        None => None,
                        Some(rt) => {
                            match &**expr {
                                Expr::Identifier { name } => {
                                    self.bind(name.lexeme.clone(), it.clone());
                                },
                                _ => {},
                            }
                            Some(rt)
                        },
                    }
                },
            },
        }
    }
}

/// Checks the types of `expressions`: infers the type of each in order, recording each
/// unknown name and function in `diagnostics`, then solves the constraints found by
/// unification, recording each mismatch, as `check_spec` says.
pub fn type_check<F, G>(
    expressions: &Vec<Expr>,
    context: &Context<F, G>,
    diagnostics: &mut Diagnostics,
)
    requires
        check_spec(nodes_of(expressions@), old(diagnostics).errors()) is Some,
    ensures
        check_spec(nodes_of(expressions@), old(diagnostics).errors()) matches Some((errors, ms))
            && reports(final(diagnostics).errors(), errors, ms),
{
    try_type_check(expressions, context, diagnostics);
}

/// Checks the types of `expressions` as `type_check` does and gives `true`, where checking
/// finishes; gives `false` where it would not: where a variable is to be bound to a type in
/// which it occurs, or the type variables run out.
pub fn try_type_check<F, G>(
    expressions: &Vec<Expr>,
    context: &Context<F, G>,
    diagnostics: &mut Diagnostics,
) -> (ok: bool)
    ensures
        ok == (check_spec(nodes_of(expressions@), old(diagnostics).errors()) is Some),
        ok ==> (check_spec(nodes_of(expressions@), old(diagnostics).errors()) matches Some((errors, ms))
            && reports(final(diagnostics).errors(), errors, ms)),
{
    let ghost errors0 = diagnostics.errors();
    let mut inf = Inference { env: Vec::new(), last: 0, constraints: Vec::new() };
    let ghost ns = nodes_of(expressions@);
    proof {
        lemma_nodes_of_index(expressions@);
        assert(ns.subrange(0, ns.len() as int) =~= ns);
        assert(cons_of(inf.constraints@) =~= Seq::<(Ty, Ty)>::empty());
        assert(env_of(inf.env@) =~= Map::<Seq<char>, Ty>::empty());
        assert(state(inf, diagnostics.errors()) == start(errors0));
    }
    let mut i: usize = 0;
    while i < expressions.len()
        invariant
            i <= expressions@.len(),
            ns == nodes_of(expressions@),
            ns.len() == expressions@.len(),
            forall|j: int| 0 <= j < expressions@.len() ==> #[trigger] ns[j] == node_of(expressions@[j]),
            infer_all(ns, start(errors0)) == infer_all(
                ns.subrange(i as int, ns.len() as int),
                state(inf, diagnostics.errors()),
            ),
            errors0 == old(diagnostics).errors(),
        decreases expressions.len() - i,
    {
        proof {
            assert(ns.subrange(i as int, ns.len() as int).subrange(1, ns.len() - i)
                =~= ns.subrange(i + 1, ns.len() as int));
            assert(ns.subrange(i as int, ns.len() as int)[0] == ns[i as int]);
        }
        match inf.infer_type(&expressions[i], diagnostics) {
            None => {
                return false;
            },
            Some(_) => {},
        }
        i += 1;
    }
    let ghost st = state(inf, diagnostics.errors());
    proof {
        assert(infer_all(ns.subrange(i as int, ns.len() as int), st) == Some(st));
    }
    let ghost cs = cons_of(inf.constraints@);
    let ghost errors1 = diagnostics.errors();
    let mut substitutions: HashMap<TypeVariable, UnificationType> = HashMap::new();
    proof {
        assert(bindings(substitutions@) =~= Map::<TypeVariable, Ty>::empty());
        assert(cs.subrange(0, cs.len() as int) =~= cs);
        lemma_reports_none(errors1);
        assert(st.constraints == cs);
        assert(check_spec(ns, errors0) == match solve(cs, Map::empty()) {
            None => None,
            Some((_, ms)) => Some((errors1, ms)),
        });
        assert forall|v: TypeVariable| #[trigger] resolves(Ty::Var(v), Map::<TypeVariable, Ty>::empty()) by {
            assert(resolve(Ty::Var(v), Map::<TypeVariable, Ty>::empty(), 1) is Some);
        }
    }
    let ghost done: Seq<crate::unification::Mismatch> = Seq::empty();
    let mut k: usize = 0;
    while k < inf.constraints.len()
        invariant
            k <= inf.constraints@.len(),
            cs == cons_of(inf.constraints@),
            cs.len() == inf.constraints@.len(),
            solve(cs, Map::empty()) == match solve(cs.subrange(k as int, cs.len() as int), bindings(substitutions@)) {
                None => None,
                Some((s2, m2)) => Some((s2, done + m2)),
            },
            resolvable(bindings(substitutions@)),
            reports(diagnostics.errors(), errors1, done),
            errors0 == old(diagnostics).errors(),
            ns == nodes_of(expressions@),
            check_spec(ns, errors0) == match solve(cs, Map::empty()) {
                None => None,
                Some((_, ms)) => Some((errors1, ms)),
            },
        decreases inf.constraints.len() - k,
    {
        let ghost rest = cs.subrange(k as int, cs.len() as int);
        let ghost errs_k = diagnostics.errors();
        let ghost sk = bindings(substitutions@);
        proof {
            assert(rest[0] == cs[k as int]);
            assert(cs[k as int] == (inf.constraints@[k as int].0@, inf.constraints@[k as int].1@));
            assert(rest.subrange(1, rest.len() as int) =~= cs.subrange(k + 1, cs.len() as int));
        }
        let ghost step = unification(cs[k as int].0, cs[k as int].1, sk);
        if !try_unify(&inf.constraints[k].0, &inf.constraints[k].1, &mut substitutions, diagnostics) {
            return false;
        }
        proof {
            law_unify_resolvable(cs[k as int].0, cs[k as int].1, sk);
            lemma_reports_append(errors1, errs_k, diagnostics.errors(), done, step.1);
            let later = solve(cs.subrange(k + 1, cs.len() as int), step.0);
            if later is Some {
                let found_later = later.unwrap().1;
                assert(done + (step.1 + found_later) =~= (done + step.1) + found_later);
            }
            done = done + step.1;
        }
        k += 1;
    }
    proof {
        assert(cs.subrange(k as int, cs.len() as int) =~= Seq::<(Ty, Ty)>::empty());
        assert(done + Seq::<crate::unification::Mismatch>::empty() =~= done);
    }
    true
}

} // verus!

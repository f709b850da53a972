use std::collections::HashMap;

use vstd::prelude::*;

use crate::diagnostics::Diagnostics;
use crate::errors::Error;
use crate::text::{decimal, push_str, push_unsigned};
use crate::termination::{
    law_unify_ends, lemma_fails_excludes, lemma_fails_not_unifiable, lemma_pairs_fail_excludes,
    pairs_fail, resolvable, unify_fails,
};
use crate::tokens::Token;

verus! {

broadcast use vstd::std_specs::vec::group_vec_axioms;

/// The type constructors of the language.
#[derive(Debug, PartialEq)]
pub enum Type {
    Boolean,
    Integer,
    Float,
    String,
    Tag { name: String, argument_count: u8 },
    Function,
}

impl Clone for Type {
    fn clone(&self) -> (r: Self)
        ensures
            r == *self,
    {
        match self {
            Type::Boolean => Type::Boolean,
            Type::Integer => Type::Integer,
            Type::Float => Type::Float,
            Type::String => Type::String,
            Type::Tag { name, argument_count } => Type::Tag {
                name: name.clone(),
                argument_count: *argument_count,
            },
            Type::Function => Type::Function,
        }
    }
}

/// Whether two type constructors are the same: the same kind, and for tags the same name and
/// number of arguments.
pub open spec fn same_type(a: Type, b: Type) -> bool {
    match a {
        Type::Boolean => b is Boolean,
        Type::Integer => b is Integer,
        Type::Float => b is Float,
        Type::String => b is String,
        Type::Tag { name, argument_count } => match b {
            Type::Tag { name: other, argument_count: count } => name@ == other@ && argument_count
                == count,
            _ => false,
        },
        Type::Function => b is Function,
    }
}

impl Type {
    /// Whether `self` and `other` are the same type constructor.
    pub fn same_as(&self, other: &Type) -> (r: bool)
        ensures
            r == same_type(*self, *other),
    {
        match (self, other) {
            (Type::Boolean, Type::Boolean) => true,
            (Type::Integer, Type::Integer) => true,
            (Type::Float, Type::Float) => true,
            (Type::String, Type::String) => true,
            (
                Type::Tag { name, argument_count },
                Type::Tag { name: other_name, argument_count: other_count },
            ) => {
                let same_name = name.eq(other_name);
                *argument_count == *other_count && same_name
            },
            (Type::Function, Type::Function) => true,
            _ => false,
        }
    }
}

/// Identifier of a type variable.
pub type TypeVariable = usize;

/// A type during inference: a constructor applied to argument types, or a variable.
#[derive(Debug, PartialEq)]
pub enum UnificationType {
    Constructor { typ: Type, generics: Vec<UnificationType>, token: Token },
    Variable(TypeVariable),
}

/// A unification type as a value, its arguments held in a sequence.
pub enum Ty {
    Con { typ: Type, generics: Seq<Ty>, token: Token },
    Var(TypeVariable),
}

/// The value of a unification type.
pub open spec fn ty_of(u: UnificationType) -> Ty
    decreases u,
{
    match u {
        UnificationType::Constructor { typ, generics, token } => Ty::Con {
            typ,
            generics: tys_of(generics@),
            token,
        },
        UnificationType::Variable(v) => Ty::Var(v),
    }
}

/// The values of a sequence of unification types.
pub open spec fn tys_of(gs: Seq<UnificationType>) -> Seq<Ty>
    decreases gs,
{
    if gs.len() == 0 {
        Seq::empty()
    } else {
        tys_of(gs.drop_last()).push(ty_of(gs.last()))
    }
}

impl View for UnificationType {
    type V = Ty;

    open spec fn view(&self) -> Ty {
        ty_of(*self)
    }
}

/// The values of a sequence of unification types, one by one.
pub proof fn lemma_tys_of_index(gs: Seq<UnificationType>)
    ensures
        tys_of(gs).len() == gs.len(),
        forall|j: int| 0 <= j < gs.len() ==> #[trigger] tys_of(gs)[j] == ty_of(gs[j]),
    decreases gs.len(),
{
    if gs.len() > 0 {
        lemma_tys_of_index(gs.drop_last());
    }
}

/// Two sequences whose unification types have pairwise the same values have the same values.
pub proof fn lemma_tys_of_pointwise(a: Seq<UnificationType>, b: Seq<UnificationType>)
    requires
        a.len() == b.len(),
        forall|j: int| 0 <= j < a.len() ==> #[trigger] ty_of(a[j]) == ty_of(b[j]),
    ensures
        tys_of(a) == tys_of(b),
{
    lemma_tys_of_index(a);
    lemma_tys_of_index(b);
    assert(tys_of(a) =~= tys_of(b));
}

impl Clone for UnificationType {
    fn clone(&self) -> (r: Self)
        ensures
            r@ == self@,
        decreases self,
    {
        match self {
            UnificationType::Constructor { typ, generics, token } => {
                let mut copies: Vec<UnificationType> = Vec::new();
                let mut i: usize = 0;
                while i < generics.len()
                    invariant
                        i <= generics.len(),
                        copies@.len() == i,
                        forall|j: int| 0 <= j < i ==> #[trigger] ty_of(copies@[j]) == ty_of(generics@[j]),
                        *self == (UnificationType::Constructor {
                            typ: *typ,
                            generics: *generics,
                            token: *token,
                        }),
                    decreases generics.len() - i,
                {
                    proof {
                        assert(decreases_to!(generics@ => generics@[i as int]));
                        assert(decreases_to!(*generics => generics@));
                        assert(decreases_to!(*self => self->generics));
                        assert(decreases_to!(*self => generics@[i as int]));
                    }
                    let copy = generics[i].clone();
                    copies.push(copy);
                    i += 1;
                }
                proof {
                    lemma_tys_of_pointwise(copies@, generics@);
                }
                UnificationType::Constructor { typ: typ.clone(), generics: copies, token: token.clone() }
            },
            UnificationType::Variable(v) => UnificationType::Variable(*v),
        }
    }
}

/// A constructor of `typ` without arguments, made at `token`.
pub fn make_constructor(typ: Type, token: Token) -> (r: UnificationType)
    ensures
        r@ == (Ty::Con { typ, generics: Seq::empty(), token }),
{
    let r = UnificationType::Constructor { typ, generics: Vec::new(), token };
    proof {
        assert(tys_of(Seq::<UnificationType>::empty()) =~= Seq::<Ty>::empty());
    }
    r
}

/// Whether the text of `t` is defined: every function type in it has at least its result type.
pub open spec fn displayable(t: Ty) -> bool
    decreases t,
{
    match t {
        Ty::Con { typ, generics, token: _ } => typ is Function ==> generics.len() > 0
            && all_displayable(generics),
        Ty::Var(_) => true,
    }
}

/// Whether the text of every type in `ts` is defined.
pub open spec fn all_displayable(ts: Seq<Ty>) -> bool
    decreases ts,
{
    ts.len() == 0 || (all_displayable(ts.drop_last()) && displayable(ts.last()))
}

/// Every type of a sequence whose texts are defined has a defined text.
pub proof fn lemma_all_displayable(ts: Seq<Ty>)
    requires
        all_displayable(ts),
    ensures
        forall|j: int| 0 <= j < ts.len() ==> #[trigger] displayable(ts[j]),
    decreases ts.len(),
{
    if ts.len() > 0 {
        lemma_all_displayable(ts.drop_last());
        assert forall|j: int| 0 <= j < ts.len() implies #[trigger] displayable(ts[j]) by {
            if j < ts.len() - 1 {
                assert(ts[j] == ts.drop_last()[j]);
            }
        }
    }
}

/// The text of a type: the name of its constructor, with the parameters and the result of a
/// function, or `???#` and the number of a variable.
pub open spec fn type_text(t: Ty) -> Seq<char>
    decreases t,
{
    match t {
        Ty::Con { typ, generics, token: _ } => match typ {
            Type::Boolean => "bool"@,
            Type::Integer => "int"@,
            Type::Float => "float"@,
            Type::String => "string"@,
            Type::Tag { name, argument_count } => if argument_count == 0 {
                "tag :"@ + name@
            } else {
                "tag :"@ + name@ + "("@ + decimal(argument_count as int) + ")"@
            },
            Type::Function => if generics.len() == 0 {
                Seq::empty()
            } else {
                "function("@ + joined_texts(generics.drop_last()) + ") -> "@ + type_text(
                    generics.last(),
                )
            },
        },
        Ty::Var(i) => "???#"@ + decimal(i as int),
    }
}

/// The texts of `ts`, separated by `, `.
pub open spec fn joined_texts(ts: Seq<Ty>) -> Seq<char>
    decreases ts,
{
    if ts.len() == 0 {
        Seq::empty()
    } else if ts.len() == 1 {
        type_text(ts[0])
    } else {
        joined_texts(ts.drop_last()) + ", "@ + type_text(ts.last())
    }
}

fn text_of(t: &str) -> (r: String)
    ensures
        r@ == t@,
{
    let mut r = String::new();
    push_str(&mut r, t);
    r
}

impl UnificationType {
    /// The text of the type, as `type_text` gives it.
    pub fn to_string(&self) -> (r: String)
        requires
            displayable(self@),
        ensures
            r@ == type_text(self@),
        decreases self,
    {
        match self {
            UnificationType::Constructor { typ, generics, token } => match typ {
                Type::Boolean => text_of("bool"),
                Type::Integer => text_of("int"),
                Type::Float => text_of("float"),
                Type::String => text_of("string"),
                Type::Tag { name, argument_count } => {
                    let mut text = text_of("tag :");
                    push_str(&mut text, name.as_str());
                    if *argument_count != 0 {
                        push_str(&mut text, "(");
                        push_unsigned(&mut text, *argument_count as u64);
                        push_str(&mut text, ")");
                    }
                    text
                },
                Type::Function => {
                    let ghost gs = tys_of(generics@);
                    proof {
                        lemma_tys_of_index(generics@);
                        assert(self@ == (Ty::Con { typ: *typ, generics: gs, token: *token }));
                        assert(gs.len() > 0);
                        lemma_all_displayable(gs);
                    }
                    let n = generics.len();
                    let mut text = text_of("function(");
                    let mut i: usize = 0;
                    while i + 1 < n
                        invariant
                            0 < n == generics.len() == gs.len(),
                            i + 1 <= n,
                            gs == tys_of(generics@),
                            forall|j: int| 0 <= j < n ==> #[trigger] gs[j] == ty_of(generics@[j]),
                            forall|j: int| 0 <= j < n ==> #[trigger] displayable(gs[j]),
                            text@ == "function("@ + joined_texts(gs.subrange(0, i as int)),
                            *self == (UnificationType::Constructor {
                                typ: *typ,
                                generics: *generics,
                                token: *token,
                            }),
                        decreases n - i,
                    {
                        proof {
                            assert(decreases_to!(generics@ => generics@[i as int]));
                            assert(decreases_to!(*generics => generics@));
                            assert(decreases_to!(*self => self->generics));
                            assert(displayable(gs[i as int]));
                        }
                        if i > 0 {
                            push_str(&mut text, ", ");
                        }
                        let part = generics[i].to_string();
                        push_str(&mut text, part.as_str());
                        proof {
                            let next = gs.subrange(0, i + 1);
                            assert(next.drop_last() =~= gs.subrange(0, i as int));
                            assert(next.last() == gs[i as int]);
                            if i == 0 {
                                assert(joined_texts(gs.subrange(0, 0)) =~= Seq::<char>::empty());
                            }
                        }
                        i += 1;
                    }
                    proof {
                        assert(decreases_to!(generics@ => generics@[i as int]));
                        assert(decreases_to!(*generics => generics@));
                        assert(decreases_to!(*self => self->generics));
                        assert(gs.drop_last() =~= gs.subrange(0, i as int));
                    }
                    push_str(&mut text, ") -> ");
                    let result = generics[i].to_string();
                    push_str(&mut text, result.as_str());
                    text
                },
            },
            UnificationType::Variable(v) => {
                let mut text = text_of("???#");
                push_unsigned(&mut text, *v as u64);
                text
            },
        }
    }
}

/// The values of a substitution's bindings.
pub open spec fn bindings(m: Map<TypeVariable, UnificationType>) -> Map<TypeVariable, Ty> {
    Map::new(|v: TypeVariable| m.contains_key(v), |v: TypeVariable| ty_of(m[v]))
}

/// `t` with each bound variable replaced by what it is bound to, again in what replaced it;
/// `None` when that nests deeper than `fuel`.
pub open spec fn resolve(t: Ty, s: Map<TypeVariable, Ty>, fuel: nat) -> Option<Ty>
    decreases fuel, 0int,
{
    if fuel == 0 {
        None
    } else {
        match t {
            Ty::Var(v) => if s.contains_key(v) {
                resolve(s[v], s, (fuel - 1) as nat)
            } else {
                Some(t)
            },
            Ty::Con { typ, generics, token } => match resolve_all(
                generics,
                s,
                (fuel - 1) as nat,
            ) {
                Some(resolved) => Some(Ty::Con { typ, generics: resolved, token }),
                None => None,
            },
        }
    }
}

/// Each of `ts` resolved, when each is within `fuel`.
pub open spec fn resolve_all(ts: Seq<Ty>, s: Map<TypeVariable, Ty>, fuel: nat) -> Option<
    Seq<Ty>,
>
    decreases fuel, ts.len() + 1,
{
    if ts.len() == 0 {
        Some(Seq::empty())
    } else {
        match (resolve_all(ts.drop_last(), s, fuel), resolve(ts.last(), s, fuel)) {
            (Some(front), Some(last)) => Some(front.push(last)),
            _ => None,
        }
    }
}

/// `resolve_all` resolves each type on its own.
pub proof fn lemma_resolve_all(ts: Seq<Ty>, s: Map<TypeVariable, Ty>, fuel: nat)
    ensures
        resolve_all(ts, s, fuel) is Some <==> forall|j: int|
            0 <= j < ts.len() ==> (#[trigger] resolve(ts[j], s, fuel)) is Some,
        resolve_all(ts, s, fuel) is Some ==> resolve_all(ts, s, fuel)->0.len() == ts.len(),
        resolve_all(ts, s, fuel) is Some ==> forall|j: int|
            0 <= j < ts.len() ==> Some(resolve_all(ts, s, fuel)->0[j]) == #[trigger] resolve(
                ts[j],
                s,
                fuel,
            ),
    decreases ts.len(),
{
    if ts.len() > 0 {
        let front = ts.drop_last();
        lemma_resolve_all(front, s, fuel);
        assert forall|j: int| 0 <= j < ts.len() - 1 implies ts[j] == front[j] by {}
        if forall|j: int| 0 <= j < ts.len() ==> (#[trigger] resolve(ts[j], s, fuel)) is Some {
            assert(resolve(ts[ts.len() - 1], s, fuel) is Some);
            assert forall|j: int| 0 <= j < front.len() implies (#[trigger] resolve(
                front[j],
                s,
                fuel,
            )) is Some by {
                assert(resolve(ts[j], s, fuel) is Some);
            }
        }
    }
}

/// Whether variable `x` occurs in `t`, following bindings that are not a variable bound to
/// itself; the constructor's arguments are searched in order and the search stops at the
/// first hit. `None` when that nests deeper than `fuel`.
pub open spec fn occurs(x: TypeVariable, t: Ty, s: Map<TypeVariable, Ty>, fuel: nat) -> Option<
    bool,
>
    decreases fuel, 0int,
{
    if fuel == 0 {
        None
    } else {
        match t {
            Ty::Var(v) => if s.contains_key(v) && s[v] != Ty::Var(v) {
                occurs(x, s[v], s, (fuel - 1) as nat)
            } else {
                Some(x == v)
            },
            Ty::Con { typ: _, generics, token: _ } => occurs_from(
                x,
                generics,
                0,
                s,
                (fuel - 1) as nat,
            ),
        }
    }
}

/// Whether `x` occurs in one of `ts` from index `k` on, searched in order.
pub open spec fn occurs_from(
    x: TypeVariable,
    ts: Seq<Ty>,
    k: int,
    s: Map<TypeVariable, Ty>,
    fuel: nat,
) -> Option<bool>
    decreases fuel, ts.len() - k + 1,
{
    if k < 0 || k >= ts.len() {
        Some(false)
    } else {
        match occurs(x, ts[k], s, fuel) {
            Some(true) => Some(true),
            Some(false) => occurs_from(x, ts, k + 1, s, fuel),
            None => None,
        }
    }
}

/// A type mismatch that unification reports: the types with bindings resolved, and where
/// each was written.
pub struct Mismatch {
    pub expected: Ty,
    pub got: Ty,
    pub declared_at: Token,
    pub provided_at: Token,
}

/// Unifies `l` and `r` under bindings `s`: the bindings after, and the mismatches found in
/// order; `None` when that nests deeper than `fuel` or when a variable would be bound to a type
/// in which it occurs.
pub open spec fn unify_spec(l: Ty, r: Ty, s: Map<TypeVariable, Ty>, fuel: nat) -> Option<
    (Map<TypeVariable, Ty>, Seq<Mismatch>),
>
    decreases fuel, 0int,
{
    if fuel == 0 {
        None
    } else {
        let f = (fuel - 1) as nat;
        if l is Con && r is Con {
            let head = if !same_type(l->Con_typ, r->Con_typ) || l->Con_generics.len()
                != r->Con_generics.len() {
                match (resolve(r, s, f), resolve(l, s, f)) {
                    (Some(expected), Some(got)) => Some(
                        seq![
                            Mismatch {
                                expected,
                                got,
                                declared_at: l->Con_token,
                                provided_at: r->Con_token,
                            },
                        ],
                    ),
                    _ => None,
                }
            } else {
                Some(Seq::empty())
            };
            match head {
                Some(h) => match unify_pairs(l->Con_generics, r->Con_generics, 0, s, f) {
                    Some((bound, found)) => Some((bound, h + found)),
                    None => None,
                },
                None => None,
            }
        } else if l is Var && r is Var && l->Var_0 == r->Var_0 {
            Some((s, Seq::empty()))
        } else if r is Var {
            let v = r->Var_0;
            if s.contains_key(v) {
                unify_spec(l, s[v], s, f)
            } else {
                match occurs(v, l, s, f) {
                    Some(false) => Some((s.insert(v, l), Seq::empty())),
                    _ => None,
                }
            }
        } else {
            let v = l->Var_0;
            if s.contains_key(v) {
                unify_spec(r, s[v], s, f)
            } else {
                match occurs(v, r, s, f) {
                    Some(false) => Some((s.insert(v, r), Seq::empty())),
                    _ => None,
                }
            }
        }
    }
}

/// Unifies `g1[k]` with `g2[k]`, then the following pairs, while both have one.
pub open spec fn unify_pairs(
    g1: Seq<Ty>,
    g2: Seq<Ty>,
    k: int,
    s: Map<TypeVariable, Ty>,
    fuel: nat,
) -> Option<(Map<TypeVariable, Ty>, Seq<Mismatch>)>
    decreases fuel, g1.len() - k + 1,
{
    if k < 0 || k >= g1.len() || k >= g2.len() {
        Some((s, Seq::empty()))
    } else {
        match unify_spec(g1[k], g2[k], s, fuel) {
            Some((s1, m1)) => match unify_pairs(g1, g2, k + 1, s1, fuel) {
                Some((s2, m2)) => Some((s2, m1 + m2)),
                None => None,
            },
            None => None,
        }
    }
}

impl UnificationType {
    /// The type with its bound variables resolved.
    fn substitute(
        &self,
        substitutions: &HashMap<TypeVariable, UnificationType>,
        Ghost(fuel): Ghost<nat>,
    ) -> (r: UnificationType)
        requires
            resolve(self@, bindings(substitutions@), fuel) is Some,
        ensures
            Some(r@) == resolve(self@, bindings(substitutions@), fuel),
        decreases fuel,
    {
        let ghost s = bindings(substitutions@);
        match self {
            UnificationType::Constructor { typ, generics, token } => {
                let ghost f = (fuel - 1) as nat;
                let ghost gs = tys_of(generics@);
                proof {
                    lemma_tys_of_index(generics@);
                    lemma_resolve_all(gs, s, f);
                }
                let mut resolved: Vec<UnificationType> = Vec::new();
                let mut i: usize = 0;
                while i < generics.len()
                    invariant
                        fuel > 0,
                        f == fuel - 1,
                        s == bindings(substitutions@),
                        i <= generics.len(),
                        resolved@.len() == i,
                        gs.len() == generics.len(),
                        forall|j: int| 0 <= j < generics.len() ==> #[trigger] gs[j] == ty_of(generics@[j]),
                        forall|j: int| 0 <= j < gs.len() ==> (#[trigger] resolve(gs[j], s, f)) is Some,
                        forall|j: int| 0 <= j < i ==> Some(#[trigger] ty_of(resolved@[j])) == resolve(gs[j], s, f),
                    decreases generics.len() - i,
                {
                    proof {
                        assert(resolve(gs[i as int], s, f) is Some);
                    }
                    let item = generics[i].substitute(substitutions, Ghost(f));
                    resolved.push(item);
                    i += 1;
                }
                proof {
                    lemma_tys_of_index(resolved@);
                    assert(tys_of(resolved@) =~= resolve_all(gs, s, f)->0);
                }
                UnificationType::Constructor {
                    typ: typ.clone(),
                    generics: resolved,
                    token: token.clone(),
                }
            },
            UnificationType::Variable(v) => match substitutions.get(v) {
                Some(bound) => bound.substitute(substitutions, Ghost((fuel - 1) as nat)),
                None => self.clone(),
            },
        }
    }

    /// Whether the variable `self` occurs in `ty`, as `occurs` says.
    fn occurs_in(
        &self,
        ty: UnificationType,
        substitutions: &HashMap<TypeVariable, UnificationType>,
        Ghost(fuel): Ghost<nat>,
    ) -> (r: bool)
        requires
            self@ is Var,
            occurs(self@->Var_0, ty@, bindings(substitutions@), fuel) is Some,
        ensures
            Some(r) == occurs(self@->Var_0, ty@, bindings(substitutions@), fuel),
        decreases fuel,
    {
        let ghost s = bindings(substitutions@);
        let ghost x = self@->Var_0;
        let ghost t = ty@;
        match ty {
            UnificationType::Variable(v) => {
                if let Some(bound) = substitutions.get(&v) {
                    let bound_to_itself = match bound {
                        UnificationType::Variable(w) => *w == v,
                        _ => false,
                    };
                    if !bound_to_itself {
                        return self.occurs_in(bound.clone(), substitutions, Ghost((fuel - 1) as nat));
                    }
                }
                match self {
                    UnificationType::Variable(own) => *own == v,
                    _ => false,
                }
            },
            UnificationType::Constructor { typ: _, generics, token: _ } => {
                let ghost f = (fuel - 1) as nat;
                let ghost gs = tys_of(generics@);
                proof {
                    lemma_tys_of_index(generics@);
                }
                let mut k: usize = 0;
                while k < generics.len()
                    invariant
                        fuel > 0,
                        f == fuel - 1,
                        s == bindings(substitutions@),
                        self@ is Var,
                        x == self@->Var_0,
                        k <= generics.len(),
                        gs.len() == generics.len(),
                        forall|j: int| 0 <= j < generics.len() ==> #[trigger] gs[j] == ty_of(generics@[j]),
                        occurs_from(x, gs, 0, s, f) == occurs_from(x, gs, k as int, s, f),
                        occurs_from(x, gs, 0, s, f) is Some,
                        occurs(x, t, s, fuel) == occurs_from(x, gs, 0, s, f),
                        t == ty@,
                    decreases generics.len() - k,
                {
                    let generic = generics[k].clone();
                    proof {
                        assert(generic@ == gs[k as int]);
                    }
                    if self.occurs_in(generic, substitutions, Ghost(f)) {
                        proof {
                            assert(occurs(x, gs[k as int], s, f) == Some(true));
                            assert(occurs_from(x, gs, k as int, s, f) == Some(true));
                            assert(occurs(x, t, s, fuel) == Some(true));
                        }
                        return true;
                    }
                    k += 1;
                }
                false
            },
        }
    }
}

/// Whether `e` reports the type mismatch `m`, without a position of its own.
pub open spec fn reports_mismatch(e: Error, m: Mismatch) -> bool {
    match e {
        Error::TypeMismatch { expected, got, declared_at, provided_at, mismatch_at } => expected@
            == m.expected && got@ == m.got && declared_at == m.declared_at && provided_at
            == m.provided_at && mismatch_at is None,
        _ => false,
    }
}

/// Whether `after` is `before` followed by one error for each mismatch of `ms`, in order.
pub open spec fn reports(after: Seq<Error>, before: Seq<Error>, ms: Seq<Mismatch>) -> bool {
    &&& after.len() == before.len() + ms.len()
    &&& after.subrange(0, before.len() as int) == before
    &&& forall|i: int|
        0 <= i < ms.len() ==> reports_mismatch(after[before.len() + i], #[trigger] ms[i])
}

/// Reporting one sequence of mismatches after another reports both in order.
pub proof fn lemma_reports_append(
    a: Seq<Error>,
    b: Seq<Error>,
    c: Seq<Error>,
    m1: Seq<Mismatch>,
    m2: Seq<Mismatch>,
)
    requires
        reports(b, a, m1),
        reports(c, b, m2),
    ensures
        reports(c, a, m1 + m2),
{
    assert(c.subrange(0, a.len() as int) =~= a) by {
        assert forall|i: int| 0 <= i < a.len() implies c[i] == a[i] by {
            assert(c[i] == c.subrange(0, b.len() as int)[i]);
            assert(b[i] == b.subrange(0, a.len() as int)[i]);
        }
    }
    assert forall|i: int| 0 <= i < (m1 + m2).len() implies reports_mismatch(
        c[a.len() + i],
        #[trigger] (m1 + m2)[i],
    ) by {
        if i < m1.len() {
            assert(m1[i] == (m1 + m2)[i]);
            assert(c[a.len() + i] == c.subrange(0, b.len() as int)[a.len() + i]);
        } else {
            let k = i - m1.len();
            assert(m2[k] == (m1 + m2)[i]);
        }
    }
}

/// Reporting no mismatch leaves the errors as they are.
pub proof fn lemma_reports_none(a: Seq<Error>)
    ensures
        reports(a, a, Seq::empty()),
{
    assert(a.subrange(0, a.len() as int) =~= a);
}

fn unify_run(
    left: &UnificationType,
    right: &UnificationType,
    substitutions: &mut HashMap<TypeVariable, UnificationType>,
    diagnostics: &mut Diagnostics,
    Ghost(fuel): Ghost<nat>,
)
    requires
        unify_spec(left@, right@, bindings(old(substitutions)@), fuel) is Some,
    ensures
        bindings(final(substitutions)@) == unify_spec(
            left@,
            right@,
            bindings(old(substitutions)@),
            fuel,
        ).unwrap().0,
        reports(
            final(diagnostics).errors(),
            old(diagnostics).errors(),
            unify_spec(left@, right@, bindings(old(substitutions)@), fuel).unwrap().1,
        ),
    decreases fuel,
{
    let ghost s = bindings(substitutions@);
    let ghost f = (fuel - 1) as nat;
    let ghost errors_before = diagnostics.errors();
    match (left, right) {
        (
            UnificationType::Constructor { typ: name1, generics: generics1, token: token1 },
            UnificationType::Constructor { typ: name2, generics: generics2, token: token2 },
        ) => {
            let ghost g1 = tys_of(generics1@);
            let ghost g2 = tys_of(generics2@);
            proof {
                lemma_tys_of_index(generics1@);
                lemma_tys_of_index(generics2@);
            }
            let ghost head: Seq<Mismatch> = Seq::empty();
            if !name1.same_as(name2) || generics1.len() != generics2.len() {
                let expected = right.substitute(substitutions, Ghost(f));
                let got = left.substitute(substitutions, Ghost(f));
                diagnostics.add_error(
                    Error::TypeMismatch {
                        expected,
                        got,
                        declared_at: token1.clone(),
                        provided_at: token2.clone(),
                        mismatch_at: None,
                    },
                );
                proof {
                    head = seq![
                        Mismatch {
                            expected: resolve(right@, s, f)->0,
                            got: resolve(left@, s, f)->0,
                            declared_at: *token1,
                            provided_at: *token2,
                        },
                    ];
                    assert(diagnostics.errors().subrange(0, errors_before.len() as int)
                        =~= errors_before);
                }
            } else {
                proof {
                    lemma_reports_none(errors_before);
                }
            }
            let ghost errors_after_head = diagnostics.errors();
            let ghost pairs = unify_pairs(g1, g2, 0, s, f)->0;
            let ghost found: Seq<Mismatch> = Seq::empty();
            proof {
                lemma_reports_none(errors_after_head);
                assert(found + unify_pairs(g1, g2, 0, s, f).unwrap().1 =~= unify_pairs(
                    g1,
                    g2,
                    0,
                    s,
                    f,
                ).unwrap().1);
            }
            let mut k: usize = 0;
            while k < generics1.len() && k < generics2.len()
                invariant
                    fuel > 0,
                    f == fuel - 1,
                    g1 == tys_of(generics1@),
                    g2 == tys_of(generics2@),
                    g1.len() == generics1.len(),
                    g2.len() == generics2.len(),
                    forall|j: int| 0 <= j < generics1.len() ==> #[trigger] g1[j] == ty_of(generics1@[j]),
                    forall|j: int| 0 <= j < generics2.len() ==> #[trigger] g2[j] == ty_of(generics2@[j]),
                    unify_pairs(g1, g2, 0, s, f) is Some,
                    pairs == unify_pairs(g1, g2, 0, s, f)->0,
                    unify_pairs(g1, g2, k as int, bindings(substitutions@), f) is Some,
                    pairs.0 == unify_pairs(g1, g2, k as int, bindings(substitutions@), f).unwrap().0,
                    pairs.1 == found + unify_pairs(g1, g2, k as int, bindings(substitutions@), f).unwrap().1,
                    reports(diagnostics.errors(), errors_after_head, found),
                decreases generics1.len() - k,
            {
                let ghost sk = bindings(substitutions@);
                let ghost errors_k = diagnostics.errors();
                let ghost step = unify_spec(g1[k as int], g2[k as int], sk, f)->0;
                let ghost rest = unify_pairs(g1, g2, k + 1, step.0, f)->0;
                proof {
                    assert(generics1@[k as int]@ == g1[k as int]);
                    assert(generics2@[k as int]@ == g2[k as int]);
                }
                unify_run(&generics1[k], &generics2[k], substitutions, diagnostics, Ghost(f));
                proof {
                    lemma_reports_append(errors_after_head, errors_k, diagnostics.errors(), found, step.1);
                    assert(pairs.1 == (found + step.1) + rest.1) by {
                        assert(found + (step.1 + rest.1) =~= (found + step.1) + rest.1);
                    }
                    found = found + step.1;
                }
                k += 1;
            }
            proof {
                assert(found =~= found + Seq::<Mismatch>::empty());
                lemma_reports_append(errors_before, errors_after_head, diagnostics.errors(), head, found);
            }
        },
        (UnificationType::Variable(i), UnificationType::Variable(j)) if *i == *j => {
            proof {
                lemma_reports_none(errors_before);
            }
        },
        (_, UnificationType::Variable(v)) => match substitutions.get(v) {
            Some(bound) => {
                let bound = bound.clone();
                unify_run(left, &bound, substitutions, diagnostics, Ghost(f));
            },
            None => {
                if !right.occurs_in(left.clone(), substitutions, Ghost(f)) {
                    substitutions.insert(*v, left.clone());
                }
                proof {
                    lemma_reports_none(errors_before);
                    assert(bindings(substitutions@) =~= s.insert(*v, left@));
                }
            },
        },
        (UnificationType::Variable(v), _) => match substitutions.get(v) {
            Some(bound) => {
                let bound = bound.clone();
                unify_run(right, &bound, substitutions, diagnostics, Ghost(f));
            },
            None => {
                if !left.occurs_in(right.clone(), substitutions, Ghost(f)) {
                    substitutions.insert(*v, right.clone());
                }
                proof {
                    lemma_reports_none(errors_before);
                    assert(bindings(substitutions@) =~= s.insert(*v, right@));
                }
            },
        },
    }
}

fn try_unify_run(
    left: &UnificationType,
    right: &UnificationType,
    substitutions: &mut HashMap<TypeVariable, UnificationType>,
    diagnostics: &mut Diagnostics,
    Ghost(fuel): Ghost<nat>,
) -> (ok: bool)
    requires
        unify_spec(left@, right@, bindings(old(substitutions)@), fuel) is Some || unify_fails(
            left@,
            right@,
            bindings(old(substitutions)@),
            fuel,
        ),
    ensures
        ok == (unify_spec(left@, right@, bindings(old(substitutions)@), fuel) is Some),
        !ok ==> unify_fails(left@, right@, bindings(old(substitutions)@), fuel),
        ok ==> bindings(final(substitutions)@) == unify_spec(
            left@,
            right@,
            bindings(old(substitutions)@),
            fuel,
        ).unwrap().0,
        ok ==> reports(
            final(diagnostics).errors(),
            old(diagnostics).errors(),
            unify_spec(left@, right@, bindings(old(substitutions)@), fuel).unwrap().1,
        ),
    decreases fuel,
{
    proof {
        lemma_fails_excludes(left@, right@, bindings(substitutions@), fuel);
    }
    let ghost s = bindings(substitutions@);
    let ghost f = (fuel - 1) as nat;
    let ghost errors_before = diagnostics.errors();
    match (left, right) {
        (
            UnificationType::Constructor { typ: name1, generics: generics1, token: token1 },
            UnificationType::Constructor { typ: name2, generics: generics2, token: token2 },
        ) => {
            let ghost g1 = tys_of(generics1@);
            let ghost g2 = tys_of(generics2@);
            proof {
                lemma_tys_of_index(generics1@);
                lemma_tys_of_index(generics2@);
            }
            let ghost head: Seq<Mismatch> = Seq::empty();
            if !name1.same_as(name2) || generics1.len() != generics2.len() {
                let expected = right.substitute(substitutions, Ghost(f));
                let got = left.substitute(substitutions, Ghost(f));
                diagnostics.add_error(
                    Error::TypeMismatch {
                        expected,
                        got,
                        declared_at: token1.clone(),
                        provided_at: token2.clone(),
                        mismatch_at: None,
                    },
                );
                proof {
                    head = seq![
                        Mismatch {
                            expected: resolve(right@, s, f)->0,
                            got: resolve(left@, s, f)->0,
                            declared_at: *token1,
                            provided_at: *token2,
                        },
                    ];
                    assert(diagnostics.errors().subrange(0, errors_before.len() as int)
                        =~= errors_before);
                }
            } else {
                proof {
                    lemma_reports_none(errors_before);
                }
            }
            let ghost errors_after_head = diagnostics.errors();
            let ghost pairs = unify_pairs(g1, g2, 0, s, f)->0;
            let ghost found: Seq<Mismatch> = Seq::empty();
            proof {
                lemma_reports_none(errors_after_head);
                assert(found + unify_pairs(g1, g2, 0, s, f).unwrap().1 =~= unify_pairs(
                    g1,
                    g2,
                    0,
                    s,
                    f,
                ).unwrap().1);
            }
            let mut k: usize = 0;
            while k < generics1.len() && k < generics2.len()
                invariant
                    fuel > 0,
                    f == fuel - 1,
                    g1 == tys_of(generics1@),
                    g2 == tys_of(generics2@),
                    g1.len() == generics1.len(),
                    g2.len() == generics2.len(),
                    forall|j: int| 0 <= j < generics1.len() ==> #[trigger] g1[j] == ty_of(generics1@[j]),
                    forall|j: int| 0 <= j < generics2.len() ==> #[trigger] g2[j] == ty_of(generics2@[j]),
                    unify_pairs(g1, g2, 0, s, f) is Some || pairs_fail(g1, g2, 0, s, f),
                    pairs == unify_pairs(g1, g2, 0, s, f)->0,
                    unify_pairs(g1, g2, 0, s, f) is Some ==> {
                        &&& unify_pairs(g1, g2, k as int, bindings(substitutions@), f) is Some
                        &&& pairs.0 == unify_pairs(g1, g2, k as int, bindings(substitutions@), f).unwrap().0
                        &&& pairs.1 == found + unify_pairs(g1, g2, k as int, bindings(substitutions@), f).unwrap().1
                    },
                    pairs_fail(g1, g2, 0, s, f) ==> pairs_fail(g1, g2, k as int, bindings(substitutions@), f),
                    s == bindings(old(substitutions)@),
                    unify_spec(left@, right@, s, fuel) is Some || unify_fails(left@, right@, s, fuel),
                    *left == (UnificationType::Constructor { typ: *name1, generics: *generics1, token: *token1 }),
                    *right == (UnificationType::Constructor { typ: *name2, generics: *generics2, token: *token2 }),
                    reports(diagnostics.errors(), errors_after_head, found),
                decreases generics1.len() - k,
            {
                let ghost sk = bindings(substitutions@);
                let ghost errors_k = diagnostics.errors();
                let ghost step = unify_spec(g1[k as int], g2[k as int], sk, f)->0;
                let ghost rest = unify_pairs(g1, g2, k + 1, step.0, f)->0;
                proof {
                    assert(generics1@[k as int]@ == g1[k as int]);
                    assert(generics2@[k as int]@ == g2[k as int]);
                }
                proof {
                    lemma_pairs_fail_excludes(g1, g2, k as int, sk, f);
                    lemma_fails_excludes(g1[k as int], g2[k as int], sk, f);
                    lemma_pairs_fail_excludes(g1, g2, 0, s, f);
                }
                if !try_unify_run(&generics1[k], &generics2[k], substitutions, diagnostics, Ghost(f)) {
                    proof {
                        if unify_pairs(g1, g2, 0, s, f) is Some {
                            assert(unify_spec(g1[k as int], g2[k as int], sk, f) is Some);
                        }
                        assert(pairs_fail(g1, g2, 0, s, f));
                    }
                    return false;
                }
                proof {
                    lemma_reports_append(errors_after_head, errors_k, diagnostics.errors(), found, step.1);
                    if unify_pairs(g1, g2, 0, s, f) is Some {
                        assert(pairs.1 == (found + step.1) + rest.1) by {
                            assert(found + (step.1 + rest.1) =~= (found + step.1) + rest.1);
                        }
                    }
                    found = found + step.1;
                }
                k += 1;
            }
            proof {
                lemma_pairs_fail_excludes(g1, g2, 0, s, f);
                assert(found =~= found + Seq::<Mismatch>::empty());
                lemma_reports_append(errors_before, errors_after_head, diagnostics.errors(), head, found);
            }
            true
        },
        (UnificationType::Variable(i), UnificationType::Variable(j)) if *i == *j => {
            proof {
                lemma_reports_none(errors_before);
            }
            true
        },
        (_, UnificationType::Variable(v)) => match substitutions.get(v) {
            Some(bound) => {
                let bound = bound.clone();
                try_unify_run(left, &bound, substitutions, diagnostics, Ghost(f))
            },
            None => {
                if right.occurs_in(left.clone(), substitutions, Ghost(f)) {
                    return false;
                }
                substitutions.insert(*v, left.clone());
                proof {
                    lemma_reports_none(errors_before);
                    assert(bindings(substitutions@) =~= s.insert(*v, left@));
                }
                true
            },
        },
        (UnificationType::Variable(v), _) => match substitutions.get(v) {
            Some(bound) => {
                let bound = bound.clone();
                try_unify_run(right, &bound, substitutions, diagnostics, Ghost(f))
            },
            None => {
                if left.occurs_in(right.clone(), substitutions, Ghost(f)) {
                    return false;
                }
                substitutions.insert(*v, right.clone());
                proof {
                    lemma_reports_none(errors_before);
                    assert(bindings(substitutions@) =~= s.insert(*v, right@));
                }
                true
            },
        },
    }
}

/// Unifies `left` with `right` as `unify` does where unification finishes, and gives `true`;
/// gives `false` where it stops at a variable that occurs in the type it would be bound to,
/// leaving the bindings and errors made so far.
pub fn try_unify(
    left: &UnificationType,
    right: &UnificationType,
    substitutions: &mut HashMap<TypeVariable, UnificationType>,
    diagnostics: &mut Diagnostics,
) -> (ok: bool)
    requires
        resolvable(bindings(old(substitutions)@)),
    ensures
        ok == unifiable(left@, right@, bindings(old(substitutions)@)),
        ok ==> bindings(final(substitutions)@) == unification(
            left@,
            right@,
            bindings(old(substitutions)@),
        ).0,
        ok ==> reports(
            final(diagnostics).errors(),
            old(diagnostics).errors(),
            unification(left@, right@, bindings(old(substitutions)@)).1,
        ),
{
    let ghost s = bindings(substitutions@);
    proof {
        assert(s.dom() =~= substitutions@.dom());
        law_unify_ends(left@, right@, s);
    }
    let ghost fuel = choose|f: nat| #[trigger]
        unify_spec(left@, right@, s, f) is Some || unify_fails(left@, right@, s, f);
    let ok = try_unify_run(left, right, substitutions, diagnostics, Ghost(fuel));
    proof {
        if ok {
            assert(unify_spec(left@, right@, s, fuel) is Some);
            let f2 = choose|f: nat| #[trigger] unify_spec(left@, right@, s, f) is Some;
            if f2 <= fuel {
                lemma_unify_fuel(left@, right@, s, f2, fuel);
            } else {
                lemma_unify_fuel(left@, right@, s, fuel, f2);
            }
        } else {
            lemma_fails_not_unifiable(left@, right@, s, fuel);
        }
    }
    ok
}

/// Whether unifying `l` with `r` under `s` finishes: no variable is ever to be bound to a type
/// in which it occurs, and the bindings followed are finite.
pub open spec fn unifiable(l: Ty, r: Ty, s: Map<TypeVariable, Ty>) -> bool {
    exists|fuel: nat| #[trigger] unify_spec(l, r, s, fuel) is Some
}

/// What unifying `l` with `r` under `s` gives, when it finishes: the bindings after and the
/// mismatches found, in order.
pub open spec fn unification(l: Ty, r: Ty, s: Map<TypeVariable, Ty>) -> (
    Map<TypeVariable, Ty>,
    Seq<Mismatch>,
) {
    unify_spec(l, r, s, choose|fuel: nat| #[trigger] unify_spec(l, r, s, fuel) is Some).unwrap()
}

/// Unifies `left` with `right`: binds variables in `substitutions` and records a type mismatch
/// in `diagnostics` for each pair of constructors that differ.
pub fn unify(
    left: &UnificationType,
    right: &UnificationType,
    substitutions: &mut HashMap<TypeVariable, UnificationType>,
    diagnostics: &mut Diagnostics,
)
    requires
        unifiable(left@, right@, bindings(old(substitutions)@)),
    ensures
        bindings(final(substitutions)@) == unification(
            left@,
            right@,
            bindings(old(substitutions)@),
        ).0,
        reports(
            final(diagnostics).errors(),
            old(diagnostics).errors(),
            unification(left@, right@, bindings(old(substitutions)@)).1,
        ),
{
    let ghost fuel = choose|fuel: nat| #[trigger]
        unify_spec(left@, right@, bindings(substitutions@), fuel) is Some;
    unify_run(left, right, substitutions, diagnostics, Ghost(fuel));
}

/// More fuel does not change a resolution that finishes.
pub proof fn lemma_resolve_fuel(t: Ty, s: Map<TypeVariable, Ty>, f1: nat, f2: nat)
    requires
        resolve(t, s, f1) is Some,
        f1 <= f2,
    ensures
        resolve(t, s, f2) == resolve(t, s, f1),
    decreases f1, 0int,
{
    match t {
        Ty::Var(v) => if s.contains_key(v) {
            lemma_resolve_fuel(s[v], s, (f1 - 1) as nat, (f2 - 1) as nat);
        },
        Ty::Con { typ: _, generics, token: _ } => {
            lemma_resolve_all_fuel(generics, s, (f1 - 1) as nat, (f2 - 1) as nat);
        },
    }
}

/// More fuel does not change resolutions that finish.
pub proof fn lemma_resolve_all_fuel(ts: Seq<Ty>, s: Map<TypeVariable, Ty>, f1: nat, f2: nat)
    requires
        resolve_all(ts, s, f1) is Some,
        f1 <= f2,
    ensures
        resolve_all(ts, s, f2) == resolve_all(ts, s, f1),
    decreases f1, ts.len() + 1,
{
    if ts.len() > 0 {
        lemma_resolve_all_fuel(ts.drop_last(), s, f1, f2);
        lemma_resolve_fuel(ts.last(), s, f1, f2);
    }
}

/// More fuel does not change an occurrence check that finishes.
pub proof fn lemma_occurs_fuel(x: TypeVariable, t: Ty, s: Map<TypeVariable, Ty>, f1: nat, f2: nat)
    requires
        occurs(x, t, s, f1) is Some,
        f1 <= f2,
    ensures
        occurs(x, t, s, f2) == occurs(x, t, s, f1),
    decreases f1, 0int,
{
    match t {
        Ty::Var(v) => if s.contains_key(v) && s[v] != Ty::Var(v) {
            lemma_occurs_fuel(x, s[v], s, (f1 - 1) as nat, (f2 - 1) as nat);
        },
        Ty::Con { typ: _, generics, token: _ } => {
            lemma_occurs_from_fuel(x, generics, 0, s, (f1 - 1) as nat, (f2 - 1) as nat);
        },
    }
}

/// More fuel does not change an occurrence search that finishes.
pub proof fn lemma_occurs_from_fuel(
    x: TypeVariable,
    ts: Seq<Ty>,
    k: int,
    s: Map<TypeVariable, Ty>,
    f1: nat,
    f2: nat,
)
    requires
        occurs_from(x, ts, k, s, f1) is Some,
        f1 <= f2,
    ensures
        occurs_from(x, ts, k, s, f2) == occurs_from(x, ts, k, s, f1),
    decreases f1, ts.len() - k + 1,
{
    if 0 <= k < ts.len() {
        lemma_occurs_fuel(x, ts[k], s, f1, f2);
        if occurs(x, ts[k], s, f1) == Some(false) {
            lemma_occurs_from_fuel(x, ts, k + 1, s, f1, f2);
        }
    }
}

/// More fuel does not change a unification that finishes.
pub proof fn lemma_unify_fuel(l: Ty, r: Ty, s: Map<TypeVariable, Ty>, f1: nat, f2: nat)
    requires
        unify_spec(l, r, s, f1) is Some,
        f1 <= f2,
    ensures
        unify_spec(l, r, s, f2) == unify_spec(l, r, s, f1),
    decreases f1, 0int,
{
    let g1 = (f1 - 1) as nat;
    let g2 = (f2 - 1) as nat;
    if l is Con && r is Con {
        if !same_type(l->Con_typ, r->Con_typ) || l->Con_generics.len() != r->Con_generics.len() {
            lemma_resolve_fuel(r, s, g1, g2);
            lemma_resolve_fuel(l, s, g1, g2);
        }
        lemma_unify_pairs_fuel(l->Con_generics, r->Con_generics, 0, s, g1, g2);
    } else if l is Var && r is Var && l->Var_0 == r->Var_0 {
    } else if r is Var {
        let v = r->Var_0;
        if s.contains_key(v) {
            lemma_unify_fuel(l, s[v], s, g1, g2);
        } else {
            lemma_occurs_fuel(v, l, s, g1, g2);
        }
    } else {
        let v = l->Var_0;
        if s.contains_key(v) {
            lemma_unify_fuel(r, s[v], s, g1, g2);
        } else {
            lemma_occurs_fuel(v, r, s, g1, g2);
        }
    }
}

/// More fuel does not change a unification of argument pairs that finishes.
pub proof fn lemma_unify_pairs_fuel(
    g1: Seq<Ty>,
    g2: Seq<Ty>,
    k: int,
    s: Map<TypeVariable, Ty>,
    f1: nat,
    f2: nat,
)
    requires
        unify_pairs(g1, g2, k, s, f1) is Some,
        f1 <= f2,
    ensures
        unify_pairs(g1, g2, k, s, f2) == unify_pairs(g1, g2, k, s, f1),
    decreases f1, g1.len() - k + 1,
{
    if 0 <= k < g1.len() && k < g2.len() {
        lemma_unify_fuel(g1[k], g2[k], s, f1, f2);
        let s1 = unify_spec(g1[k], g2[k], s, f1).unwrap().0;
        lemma_unify_pairs_fuel(g1, g2, k + 1, s1, f1, f2);
    }
}

/// A run of unification that finishes within some fuel is what `unification` gives.
pub proof fn lemma_unification(l: Ty, r: Ty, s: Map<TypeVariable, Ty>, fuel: nat)
    requires
        unify_spec(l, r, s, fuel) is Some,
    ensures
        unifiable(l, r, s),
        unification(l, r, s) == unify_spec(l, r, s, fuel).unwrap(),
{
    let chosen = choose|f: nat| #[trigger] unify_spec(l, r, s, f) is Some;
    assert(unify_spec(l, r, s, chosen) is Some);
    if chosen <= fuel {
        lemma_unify_fuel(l, r, s, chosen, fuel);
    } else {
        lemma_unify_fuel(l, r, s, fuel, chosen);
    }
}

pub(crate) proof fn lemma_unify_extends(l: Ty, r: Ty, s: Map<TypeVariable, Ty>, fuel: nat)
    requires
        unify_spec(l, r, s, fuel) is Some,
    ensures
        s.submap_of(unify_spec(l, r, s, fuel).unwrap().0),
    decreases fuel, 0int,
{
    let f = (fuel - 1) as nat;
    if l is Con && r is Con {
        lemma_unify_pairs_extends(l->Con_generics, r->Con_generics, 0, s, f);
    } else if l is Var && r is Var && l->Var_0 == r->Var_0 {
    } else if r is Var {
        if s.contains_key(r->Var_0) {
            lemma_unify_extends(l, s[r->Var_0], s, f);
        }
    } else {
        if s.contains_key(l->Var_0) {
            lemma_unify_extends(r, s[l->Var_0], s, f);
        }
    }
}

pub(crate) proof fn lemma_unify_pairs_extends(
    g1: Seq<Ty>,
    g2: Seq<Ty>,
    k: int,
    s: Map<TypeVariable, Ty>,
    fuel: nat,
)
    requires
        unify_pairs(g1, g2, k, s, fuel) is Some,
    ensures
        s.submap_of(unify_pairs(g1, g2, k, s, fuel).unwrap().0),
    decreases fuel, g1.len() - k + 1,
{
    if 0 <= k < g1.len() && k < g2.len() {
        lemma_unify_extends(g1[k], g2[k], s, fuel);
        let s1 = unify_spec(g1[k], g2[k], s, fuel).unwrap().0;
        lemma_unify_pairs_extends(g1, g2, k + 1, s1, fuel);
        let s2 = unify_pairs(g1, g2, k + 1, s1, fuel).unwrap().0;
        assert forall|key: TypeVariable| s.dom().contains(key) implies #[trigger] s2.dom().contains(
            key,
        ) && s2[key] == s[key] by {
            assert(s1.dom().contains(key));
        }
    }
}

/// Unification keeps every binding it started with: it only adds bindings.
pub proof fn law_unify_keeps_bindings(l: Ty, r: Ty, s: Map<TypeVariable, Ty>)
    requires
        unifiable(l, r, s),
    ensures
        s.submap_of(unification(l, r, s).0),
{
    let fuel = choose|f: nat| #[trigger] unify_spec(l, r, s, f) is Some;
    lemma_unify_extends(l, r, s, fuel);
}

/// Whether two types have the same shape: the same variables, and the same constructors
/// with arguments of the same shape, wherever they were written.
pub open spec fn same_shape(a: Ty, b: Ty) -> bool
    decreases a,
{
    match a {
        Ty::Var(x) => b == Ty::Var(x),
        Ty::Con { typ, generics, token: _ } => match b {
            Ty::Con { typ: other, generics: others, token: _ } => same_type(typ, other)
                && generics.len() == others.len() && all_same_shape(generics, others),
            _ => false,
        },
    }
}

/// Whether `g1` and `g2` have the same shape element by element, as far as `g1` goes.
pub open spec fn all_same_shape(g1: Seq<Ty>, g2: Seq<Ty>) -> bool
    decreases g1,
{
    g1.len() == 0 || (g2.len() > 0 && all_same_shape(g1.drop_last(), g2.drop_last())
        && same_shape(g1.last(), g2.last()))
}

proof fn lemma_all_same_shape_index(g1: Seq<Ty>, g2: Seq<Ty>)
    requires
        g1.len() == g2.len(),
    ensures
        all_same_shape(g1, g2) <==> forall|i: int|
            0 <= i < g1.len() ==> #[trigger] same_shape(g1[i], g2[i]),
    decreases g1.len(),
{
    if g1.len() > 0 {
        let (f1, f2) = (g1.drop_last(), g2.drop_last());
        lemma_all_same_shape_index(f1, f2);
        if forall|i: int| 0 <= i < g1.len() ==> #[trigger] same_shape(g1[i], g2[i]) {
            assert forall|i: int| 0 <= i < f1.len() implies #[trigger] same_shape(f1[i], f2[i]) by {
                assert(same_shape(g1[i], g2[i]));
            }
            assert(same_shape(g1[g1.len() - 1], g2[g2.len() - 1]));
        }
        if all_same_shape(g1, g2) {
            assert forall|i: int| 0 <= i < g1.len() implies #[trigger] same_shape(g1[i], g2[i]) by {
                if i < g1.len() - 1 {
                    assert(same_shape(f1[i], f2[i]));
                }
            }
        }
    }
}

proof fn lemma_same_shape_refl(t: Ty)
    ensures
        same_shape(t, t),
    decreases t,
{
    if let Ty::Con { typ, generics, token: _ } = t {
        assert forall|i: int| 0 <= i < generics.len() implies #[trigger] same_shape(
            generics[i],
            generics[i],
        ) by {
            lemma_same_shape_refl(generics[i]);
        }
        lemma_all_same_shape_index(generics, generics);
    }
}

proof fn lemma_same_shape_sym(a: Ty, b: Ty)
    requires
        same_shape(a, b),
    ensures
        same_shape(b, a),
    decreases a,
{
    if let Ty::Con { typ, generics, token: _ } = a {
        let others = b->Con_generics;
        lemma_all_same_shape_index(generics, others);
        assert forall|i: int| 0 <= i < others.len() implies #[trigger] same_shape(
            others[i],
            generics[i],
        ) by {
            assert(same_shape(generics[i], others[i]));
            lemma_same_shape_sym(generics[i], others[i]);
        }
        lemma_all_same_shape_index(others, generics);
    }
}

proof fn lemma_resolve_sub(t: Ty, s1: Map<TypeVariable, Ty>, s2: Map<TypeVariable, Ty>, f: nat)
    requires
        s1.submap_of(s2),
        resolve(t, s2, f) is Some,
    ensures
        resolve(t, s1, f) is Some,
        resolve(resolve(t, s1, f).unwrap(), s2, f) == resolve(t, s2, f),
    decreases f, 0int,
{
    match t {
        Ty::Var(v) => {
            if s1.contains_key(v) {
                assert(s2.contains_key(v) && s2[v] == s1[v]);
                lemma_resolve_sub(s1[v], s1, s2, (f - 1) as nat);
                let x = resolve(s1[v], s1, (f - 1) as nat).unwrap();
                lemma_resolve_fuel(x, s2, (f - 1) as nat, f);
            }
        },
        Ty::Con { typ, generics, token } => {
            lemma_resolve_all_sub(generics, s1, s2, (f - 1) as nat);
        },
    }
}

proof fn lemma_resolve_all_sub(
    ts: Seq<Ty>,
    s1: Map<TypeVariable, Ty>,
    s2: Map<TypeVariable, Ty>,
    f: nat,
)
    requires
        s1.submap_of(s2),
        resolve_all(ts, s2, f) is Some,
    ensures
        resolve_all(ts, s1, f) is Some,
        resolve_all(resolve_all(ts, s1, f).unwrap(), s2, f) == resolve_all(ts, s2, f),
    decreases f, ts.len() + 1,
{
    if ts.len() > 0 {
        lemma_resolve_all_sub(ts.drop_last(), s1, s2, f);
        lemma_resolve_sub(ts.last(), s1, s2, f);
        let front = resolve_all(ts.drop_last(), s1, f).unwrap();
        let last = resolve(ts.last(), s1, f).unwrap();
        assert(front.push(last).drop_last() =~= front);
        assert(front.push(last).last() == last);
    }
}

proof fn lemma_resolve_shape(x: Ty, y: Ty, s: Map<TypeVariable, Ty>, f: nat)
    requires
        same_shape(x, y),
        resolve(x, s, f) is Some,
        resolve(y, s, f) is Some,
    ensures
        same_shape(resolve(x, s, f).unwrap(), resolve(y, s, f).unwrap()),
    decreases f, 0int,
{
    match x {
        Ty::Var(_) => {
            lemma_same_shape_refl(resolve(x, s, f).unwrap());
        },
        Ty::Con { typ, generics, token } => {
            let others = y->Con_generics;
            let g = (f - 1) as nat;
            lemma_resolve_all(generics, s, g);
            lemma_resolve_all(others, s, g);
            lemma_all_same_shape_index(generics, others);
            let rx = resolve_all(generics, s, g).unwrap();
            let ry = resolve_all(others, s, g).unwrap();
            assert forall|i: int| 0 <= i < rx.len() implies #[trigger] same_shape(rx[i], ry[i]) by {
                assert(same_shape(generics[i], others[i]));
                assert(resolve(generics[i], s, g) is Some);
                assert(resolve(others[i], s, g) is Some);
                lemma_resolve_shape(generics[i], others[i], s, g);
            }
            lemma_all_same_shape_index(rx, ry);
        },
    }
}

/// Whether `a` and `b` have the same shape wherever both resolve under `s`.
pub open spec fn agree_under(a: Ty, b: Ty, s: Map<TypeVariable, Ty>) -> bool {
    forall|f: nat|
        #![trigger resolve(a, s, f), resolve(b, s, f)]
        resolve(a, s, f) is Some && resolve(b, s, f) is Some ==> same_shape(
            resolve(a, s, f).unwrap(),
            resolve(b, s, f).unwrap(),
        )
}

proof fn lemma_unify_shape(l: Ty, r: Ty, s: Map<TypeVariable, Ty>, fuel: nat)
    requires
        unify_spec(l, r, s, fuel) is Some,
        unify_spec(l, r, s, fuel).unwrap().1.len() == 0,
    ensures
        agree_under(l, r, unify_spec(l, r, s, fuel).unwrap().0),
    decreases fuel, 0int,
{
    let s2 = unify_spec(l, r, s, fuel).unwrap().0;
    let g = (fuel - 1) as nat;
    lemma_unify_extends(l, r, s, fuel);
    if l is Con && r is Con {
        let (g1, g2) = (l->Con_generics, r->Con_generics);
        lemma_pairs_shape(g1, g2, 0, s, g);
        assert forall|f: nat|
            #![trigger resolve(l, s2, f), resolve(r, s2, f)]
            resolve(l, s2, f) is Some && resolve(r, s2, f) is Some implies same_shape(
            resolve(l, s2, f).unwrap(),
            resolve(r, s2, f).unwrap(),
        ) by {
            let h = (f - 1) as nat;
            lemma_resolve_all(g1, s2, h);
            lemma_resolve_all(g2, s2, h);
            let r1 = resolve_all(g1, s2, h).unwrap();
            let r2 = resolve_all(g2, s2, h).unwrap();
            assert forall|i: int| 0 <= i < r1.len() implies #[trigger] same_shape(r1[i], r2[i]) by {
                assert(resolve(g1[i], s2, h) is Some && resolve(g2[i], s2, h) is Some);
            }
            lemma_all_same_shape_index(r1, r2);
        }
    } else if l is Var && r is Var && l->Var_0 == r->Var_0 {
        assert forall|f: nat|
            #![trigger resolve(l, s2, f), resolve(r, s2, f)]
            resolve(l, s2, f) is Some && resolve(r, s2, f) is Some implies same_shape(
            resolve(l, s2, f).unwrap(),
            resolve(r, s2, f).unwrap(),
        ) by {
            lemma_same_shape_refl(resolve(l, s2, f).unwrap());
        }
    } else if r is Var {
        let v = r->Var_0;
        if s.contains_key(v) {
            lemma_unify_shape(l, s[v], s, g);
            assert forall|f: nat|
                #![trigger resolve(l, s2, f), resolve(r, s2, f)]
                resolve(l, s2, f) is Some && resolve(r, s2, f) is Some implies same_shape(
                resolve(l, s2, f).unwrap(),
                resolve(r, s2, f).unwrap(),
            ) by {
                assert(s2.contains_key(v) && s2[v] == s[v]);
                lemma_resolve_fuel(s[v], s2, (f - 1) as nat, f);
                assert(resolve(l, s2, f) is Some && resolve(s[v], s2, f) is Some);
            }
        } else {
            assert forall|f: nat|
                #![trigger resolve(l, s2, f), resolve(r, s2, f)]
                resolve(l, s2, f) is Some && resolve(r, s2, f) is Some implies same_shape(
                resolve(l, s2, f).unwrap(),
                resolve(r, s2, f).unwrap(),
            ) by {
                lemma_resolve_fuel(l, s2, (f - 1) as nat, f);
                lemma_same_shape_refl(resolve(l, s2, f).unwrap());
            }
        }
    } else {
        let v = l->Var_0;
        if s.contains_key(v) {
            lemma_unify_shape(r, s[v], s, g);
            assert forall|f: nat|
                #![trigger resolve(l, s2, f), resolve(r, s2, f)]
                resolve(l, s2, f) is Some && resolve(r, s2, f) is Some implies same_shape(
                resolve(l, s2, f).unwrap(),
                resolve(r, s2, f).unwrap(),
            ) by {
                assert(s2.contains_key(v) && s2[v] == s[v]);
                lemma_resolve_fuel(s[v], s2, (f - 1) as nat, f);
                assert(resolve(r, s2, f) is Some && resolve(s[v], s2, f) is Some);
                lemma_same_shape_sym(resolve(r, s2, f).unwrap(), resolve(s[v], s2, f).unwrap());
            }
        } else {
            assert forall|f: nat|
                #![trigger resolve(l, s2, f), resolve(r, s2, f)]
                resolve(l, s2, f) is Some && resolve(r, s2, f) is Some implies same_shape(
                resolve(l, s2, f).unwrap(),
                resolve(r, s2, f).unwrap(),
            ) by {
                lemma_resolve_fuel(r, s2, (f - 1) as nat, f);
                lemma_same_shape_refl(resolve(r, s2, f).unwrap());
            }
        }
    }
}

proof fn lemma_pairs_shape(g1: Seq<Ty>, g2: Seq<Ty>, k: int, s: Map<TypeVariable, Ty>, fuel: nat)
    requires
        unify_pairs(g1, g2, k, s, fuel) is Some,
        unify_pairs(g1, g2, k, s, fuel).unwrap().1.len() == 0,
        0 <= k,
    ensures
        forall|i: int|
            k <= i < g1.len() && i < g2.len() ==> agree_under(
                #[trigger] g1[i],
                g2[i],
                unify_pairs(g1, g2, k, s, fuel).unwrap().0,
            ),
    decreases fuel, g1.len() - k + 1,
{
    if k < g1.len() && k < g2.len() {
        let (s1, m1) = unify_spec(g1[k], g2[k], s, fuel).unwrap();
        let (s2, m2) = unify_pairs(g1, g2, k + 1, s1, fuel).unwrap();
        assert(m1.len() == 0 && m2.len() == 0);
        lemma_unify_shape(g1[k], g2[k], s, fuel);
        lemma_pairs_shape(g1, g2, k + 1, s1, fuel);
        lemma_unify_pairs_extends(g1, g2, k + 1, s1, fuel);
        assert forall|f: nat|
            #![trigger resolve(g1[k], s2, f), resolve(g2[k], s2, f)]
            resolve(g1[k], s2, f) is Some && resolve(g2[k], s2, f) is Some implies same_shape(
            resolve(g1[k], s2, f).unwrap(),
            resolve(g2[k], s2, f).unwrap(),
        ) by {
            lemma_resolve_sub(g1[k], s1, s2, f);
            lemma_resolve_sub(g2[k], s1, s2, f);
            let x = resolve(g1[k], s1, f).unwrap();
            let y = resolve(g2[k], s1, f).unwrap();
            assert(resolve(g1[k], s1, f) is Some && resolve(g2[k], s1, f) is Some);
            lemma_resolve_shape(x, y, s2, f);
        }
        assert forall|i: int| k <= i < g1.len() && i < g2.len() implies agree_under(
            #[trigger] g1[i],
            g2[i],
            s2,
        ) by {
            if i > k {
                assert(agree_under(g1[i], g2[i], s2));
            }
        }
    }
}

/// Unifying two types without a single mismatch makes them equal: under the bindings that
/// unification ends with, they resolve to the same shape, the same variables and constructors,
/// wherever both resolutions finish.
pub proof fn law_unify_unifies(l: Ty, r: Ty, s: Map<TypeVariable, Ty>)
    requires
        unifiable(l, r, s),
        unification(l, r, s).1.len() == 0,
    ensures
        agree_under(l, r, unification(l, r, s).0),
{
    let fuel = choose|f: nat| #[trigger] unify_spec(l, r, s, f) is Some;
    lemma_unify_shape(l, r, s, fuel);
}

/// Whether no variable bound in `s` occurs in `t`.
pub open spec fn free_of(t: Ty, s: Map<TypeVariable, Ty>) -> bool
    decreases t,
{
    match t {
        Ty::Var(v) => !s.contains_key(v),
        Ty::Con { typ: _, generics, token: _ } => all_free(generics, s),
    }
}

/// Whether no variable bound in `s` occurs in any of `ts`.
pub open spec fn all_free(ts: Seq<Ty>, s: Map<TypeVariable, Ty>) -> bool
    decreases ts,
{
    if ts.len() == 0 {
        true
    } else {
        all_free(ts.drop_last(), s) && free_of(ts.last(), s)
    }
}

/// `all_free` holds of a sequence when `free_of` holds of each of its types.
pub proof fn lemma_all_free(ts: Seq<Ty>, s: Map<TypeVariable, Ty>)
    ensures
        all_free(ts, s) <==> forall|j: int| 0 <= j < ts.len() ==> #[trigger] free_of(ts[j], s),
    decreases ts.len(),
{
    if ts.len() > 0 {
        let front = ts.drop_last();
        lemma_all_free(front, s);
        assert forall|j: int| 0 <= j < front.len() implies front[j] == ts[j] by {}
        if forall|j: int| 0 <= j < ts.len() ==> #[trigger] free_of(ts[j], s) {
            assert(free_of(ts[ts.len() - 1], s));
            assert forall|j: int| 0 <= j < front.len() implies #[trigger] free_of(front[j], s) by {
                assert(free_of(ts[j], s));
            }
        }
    }
}

proof fn lemma_resolve_free(t: Ty, s: Map<TypeVariable, Ty>, fuel: nat)
    requires
        resolve(t, s, fuel) is Some,
    ensures
        free_of(resolve(t, s, fuel)->0, s),
        resolve(resolve(t, s, fuel)->0, s, fuel) == resolve(t, s, fuel),
    decreases fuel,
{
    let u = resolve(t, s, fuel)->0;
    match t {
        Ty::Var(v) => if s.contains_key(v) {
            assert(resolve(t, s, fuel) == resolve(s[v], s, (fuel - 1) as nat));
            lemma_resolve_free(s[v], s, (fuel - 1) as nat);
            lemma_resolve_fuel(u, s, (fuel - 1) as nat, fuel);
        } else {
            assert(u == t);
        },
        Ty::Con { typ, generics, token } => {
            let f = (fuel - 1) as nat;
            lemma_resolve_all(generics, s, f);
            let us = resolve_all(generics, s, f)->0;
            assert(u == Ty::Con { typ, generics: us, token });
            assert forall|j: int| 0 <= j < us.len() implies #[trigger] free_of(us[j], s) by {
                assert(resolve(generics[j], s, f) is Some);
                lemma_resolve_free(generics[j], s, f);
            }
            assert forall|j: int| 0 <= j < us.len() implies #[trigger] resolve(us[j], s, f) == Some(
                us[j],
            ) by {
                assert(resolve(generics[j], s, f) is Some);
                lemma_resolve_free(generics[j], s, f);
            }
            lemma_resolve_all(us, s, f);
            assert(forall|j: int| 0 <= j < us.len() ==> (#[trigger] resolve(us[j], s, f)) is Some);
            assert(resolve_all(us, s, f) is Some);
            let again = resolve_all(us, s, f)->0;
            assert forall|j: int| 0 <= j < us.len() implies again[j] == us[j] by {
                assert(resolve(us[j], s, f) == Some(us[j]));
            }
            assert(again =~= us);
            assert(resolve(u, s, fuel) == Some(Ty::Con { typ, generics: again, token }));
            lemma_all_free(us, s);
        },
    }
}

proof fn lemma_resolve_empty(t: Ty, fuel: nat)
    requires
        resolve(t, Map::empty(), fuel) is Some,
    ensures
        resolve(t, Map::empty(), fuel) == Some(t),
    decreases fuel,
{
    let s = Map::<TypeVariable, Ty>::empty();
    match t {
        Ty::Var(v) => {},
        Ty::Con { typ, generics, token } => {
            let f = (fuel - 1) as nat;
            lemma_resolve_all(generics, s, f);
            assert forall|j: int| 0 <= j < generics.len() implies #[trigger] resolve(
                generics[j],
                s,
                f,
            ) == Some(generics[j]) by {
                lemma_resolve_empty(generics[j], f);
            }
            let us = resolve_all(generics, s, f)->0;
            assert forall|j: int| 0 <= j < generics.len() implies us[j] == generics[j] by {
                assert(resolve(generics[j], s, f) == Some(generics[j]));
            }
            assert(us =~= generics);
        },
    }
}

/// Substituting the bindings of `s` into `t`, where that finishes, leaves no bound variable in
/// the result, and substituting again changes nothing. A constructor keeps its type, its
/// token and its number of arguments.
pub proof fn law_substitute(t: Ty, s: Map<TypeVariable, Ty>, fuel: nat)
    requires
        resolve(t, s, fuel) is Some,
    ensures
        free_of(resolve(t, s, fuel)->0, s),
        resolve(resolve(t, s, fuel)->0, s, fuel) == resolve(t, s, fuel),
        t matches Ty::Con { typ, generics, token } ==> resolve(t, s, fuel)->0 matches Ty::Con {
            typ: typ2,
            generics: generics2,
            token: token2,
        } && typ2 == typ && token2 == token && generics2.len() == generics.len(),
{
    lemma_resolve_free(t, s, fuel);
    if let Ty::Con { typ, generics, token } = t {
        lemma_resolve_all(generics, s, (fuel - 1) as nat);
    }
}

/// Substituting under no bindings gives the type back.
pub proof fn law_substitute_nothing(t: Ty, fuel: nat)
    requires
        resolve(t, Map::empty(), fuel) is Some,
    ensures
        resolve(t, Map::empty(), fuel) == Some(t),
{
    lemma_resolve_empty(t, fuel);
}

} // verus!

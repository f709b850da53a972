use vstd::prelude::*;

use crate::unification::{
    lemma_occurs_fuel, lemma_resolve_all, lemma_resolve_all_fuel, lemma_resolve_fuel, occurs,
    lemma_unify_fuel, lemma_unify_pairs_fuel, law_unify_unifies, occurs_from, resolve, resolve_all,
    same_shape, same_type, unifiable, unification, unify_pairs, unify_spec, TypeVariable, Ty,
};

verus! {

/// Whether every variable resolves under `s` within some fuel: no chain of bindings loops.
pub open spec fn resolvable(s: Map<TypeVariable, Ty>) -> bool {
    forall|v: TypeVariable| #[trigger] resolves(Ty::Var(v), s)
}

/// Whether `t` resolves under `s` within some fuel.
pub open spec fn resolves(t: Ty, s: Map<TypeVariable, Ty>) -> bool {
    exists|f: nat| #[trigger] resolve(t, s, f) is Some
}

/// The least fuel within which `t` resolves under `s`.
pub open spec fn need(t: Ty, s: Map<TypeVariable, Ty>) -> nat {
    choose|f: nat|
        #![trigger resolve(t, s, f)]
        resolve(t, s, f) is Some && forall|g: nat| g < f ==> #[trigger] resolve(t, s, g) is None
}

proof fn lemma_least_fuel_exists(t: Ty, s: Map<TypeVariable, Ty>, f0: nat)
    requires
        resolve(t, s, f0) is Some,
    ensures
        exists|f: nat|
            #![trigger resolve(t, s, f)]
            resolve(t, s, f) is Some && forall|g: nat| g < f ==> #[trigger] resolve(t, s, g) is None,
    decreases f0,
{
    if f0 > 0 && resolve(t, s, (f0 - 1) as nat) is Some {
        lemma_least_fuel_exists(t, s, (f0 - 1) as nat);
    } else {
        assert forall|g: nat| g < f0 implies #[trigger] resolve(t, s, g) is None by {
            if resolve(t, s, g) is Some {
                lemma_resolve_fuel(t, s, g, (f0 - 1) as nat);
            }
        }
    }
}

/// The least fuel suffices, and no less does.
pub proof fn lemma_need(t: Ty, s: Map<TypeVariable, Ty>)
    requires
        resolves(t, s),
    ensures
        resolve(t, s, need(t, s)) is Some,
        forall|g: nat| #[trigger] resolve(t, s, g) is Some ==> need(t, s) <= g,
{
    let f0 = choose|f: nat| #[trigger] resolve(t, s, f) is Some;
    lemma_least_fuel_exists(t, s, f0);
    let n = need(t, s);
    assert forall|g: nat| #[trigger] resolve(t, s, g) is Some implies n <= g by {
        if g < n {
            assert(resolve(t, s, g) is None);
        }
    }
}

/// A bound variable needs more fuel than what it is bound to.
pub proof fn lemma_need_var(v: TypeVariable, s: Map<TypeVariable, Ty>)
    requires
        s.contains_key(v),
        resolves(Ty::Var(v), s),
    ensures
        resolves(s[v], s),
        need(s[v], s) < need(Ty::Var(v), s),
{
    lemma_need(Ty::Var(v), s);
    let n = need(Ty::Var(v), s);
    assert(resolve(s[v], s, (n - 1) as nat) is Some);
    lemma_need(s[v], s);
}

/// A constructor needs more fuel than each of its arguments.
pub proof fn lemma_need_con(t: Ty, s: Map<TypeVariable, Ty>, i: int)
    requires
        t is Con,
        0 <= i < t->Con_generics.len(),
        resolves(t, s),
    ensures
        resolves(t->Con_generics[i], s),
        need(t->Con_generics[i], s) < need(t, s),
{
    lemma_need(t, s);
    let n = need(t, s);
    lemma_resolve_all(t->Con_generics, s, (n - 1) as nat);
    assert(resolve(t->Con_generics[i], s, (n - 1) as nat) is Some);
    lemma_need(t->Con_generics[i], s);
}

/// Under bindings whose variables all resolve, every type resolves.
pub proof fn lemma_resolves(t: Ty, s: Map<TypeVariable, Ty>)
    requires
        resolvable(s),
    ensures
        resolves(t, s),
    decreases t,
{
    match t {
        Ty::Var(v) => {
            assert(resolves(Ty::Var(v), s));
        },
        Ty::Con { typ, generics, token } => {
            lemma_resolves_all(generics, s);
            let f = choose|f: nat| #[trigger] resolve_all(generics, s, f) is Some;
            assert(resolve(t, s, f + 1) is Some);
        },
    }
}

proof fn lemma_resolves_all(ts: Seq<Ty>, s: Map<TypeVariable, Ty>)
    requires
        resolvable(s),
    ensures
        exists|f: nat| #[trigger] resolve_all(ts, s, f) is Some,
    decreases ts,
{
    if ts.len() == 0 {
        assert(resolve_all(ts, s, 0) is Some);
    } else {
        lemma_resolves_all(ts.drop_last(), s);
        lemma_resolves(ts.last(), s);
        let f1 = choose|f: nat| #[trigger] resolve_all(ts.drop_last(), s, f) is Some;
        let f2 = choose|f: nat| #[trigger] resolve(ts.last(), s, f) is Some;
        let f = if f1 < f2 {
            f2
        } else {
            f1
        };
        lemma_resolve_all_fuel(ts.drop_last(), s, f1, f);
        lemma_resolve_fuel(ts.last(), s, f2, f);
        assert(resolve_all(ts, s, f) is Some);
    }
}

/// Where resolution finishes, so does the occurrence check, which follows the same bindings.
pub proof fn lemma_occurs_finishes(x: TypeVariable, t: Ty, s: Map<TypeVariable, Ty>, f: nat)
    requires
        resolve(t, s, f) is Some,
    ensures
        occurs(x, t, s, f) is Some,
    decreases f, 0int,
{
    match t {
        Ty::Var(w) => {
            if s.contains_key(w) && s[w] != Ty::Var(w) {
                lemma_occurs_finishes(x, s[w], s, (f - 1) as nat);
            }
        },
        Ty::Con { typ, generics, token } => {
            lemma_resolve_all(generics, s, (f - 1) as nat);
            lemma_occurs_from_finishes(x, generics, 0, s, (f - 1) as nat);
        },
    }
}

proof fn lemma_occurs_from_finishes(
    x: TypeVariable,
    ts: Seq<Ty>,
    k: int,
    s: Map<TypeVariable, Ty>,
    f: nat,
)
    requires
        forall|j: int| 0 <= j < ts.len() ==> (#[trigger] resolve(ts[j], s, f)) is Some,
    ensures
        occurs_from(x, ts, k, s, f) is Some,
    decreases f, ts.len() - k + 1,
{
    if 0 <= k < ts.len() {
        lemma_occurs_finishes(x, ts[k], s, f);
        lemma_occurs_from_finishes(x, ts, k + 1, s, f);
    }
}

proof fn lemma_occurs_from_false(x: TypeVariable, ts: Seq<Ty>, k: int, s: Map<TypeVariable, Ty>, f: nat)
    requires
        occurs_from(x, ts, k, s, f) == Some(false),
        0 <= k,
    ensures
        forall|j: int| k <= j < ts.len() ==> #[trigger] occurs(x, ts[j], s, f) == Some(false),
    decreases ts.len() - k,
{
    if k < ts.len() {
        lemma_occurs_from_false(x, ts, k + 1, s, f);
    }
}

/// A variable bound to itself never resolves.
proof fn lemma_self_bound(w: TypeVariable, s: Map<TypeVariable, Ty>, f: nat)
    requires
        s.contains_key(w),
        s[w] == Ty::Var(w),
    ensures
        resolve(Ty::Var(w), s, f) is None,
    decreases f,
{
    if f > 0 {
        lemma_self_bound(w, s, (f - 1) as nat);
    }
}

/// Binding a variable that does not occur in `t` leaves the resolution of `t` as it was.
pub proof fn lemma_bind_unseen(
    v: TypeVariable,
    x: Ty,
    t: Ty,
    s: Map<TypeVariable, Ty>,
    f: nat,
)
    requires
        !s.contains_key(v),
        occurs(v, t, s, f) == Some(false),
    ensures
        resolve(t, s.insert(v, x), f) == resolve(t, s, f),
    decreases f, 0int,
{
    let s2 = s.insert(v, x);
    match t {
        Ty::Var(w) => {
            if s.contains_key(w) {
                assert(s2[w] == s[w]);
                if s[w] != Ty::Var(w) {
                    lemma_bind_unseen(v, x, s[w], s, (f - 1) as nat);
                } else {
                    lemma_self_bound(w, s, f);
                    lemma_self_bound(w, s2, f);
                }
            }
        },
        Ty::Con { typ, generics, token } => {
            lemma_occurs_from_false(v, generics, 0, s, (f - 1) as nat);
            lemma_bind_unseen_all(v, x, generics, s, (f - 1) as nat);
        },
    }
}

proof fn lemma_bind_unseen_all(
    v: TypeVariable,
    x: Ty,
    ts: Seq<Ty>,
    s: Map<TypeVariable, Ty>,
    f: nat,
)
    requires
        !s.contains_key(v),
        forall|j: int| 0 <= j < ts.len() ==> #[trigger] occurs(v, ts[j], s, f) == Some(false),
    ensures
        resolve_all(ts, s.insert(v, x), f) == resolve_all(ts, s, f),
    decreases f, ts.len() + 1,
{
    if ts.len() > 0 {
        assert(occurs(v, ts[ts.len() - 1], s, f) == Some(false));
        assert forall|j: int| 0 <= j < ts.drop_last().len() implies #[trigger] occurs(
            v,
            ts.drop_last()[j],
            s,
            f,
        ) == Some(false) by {
            assert(occurs(v, ts[j], s, f) == Some(false));
        }
        lemma_bind_unseen_all(v, x, ts.drop_last(), s, f);
        lemma_bind_unseen(v, x, ts.last(), s, f);
    }
}

proof fn lemma_bind_resolves(u: Ty, s: Map<TypeVariable, Ty>, v: TypeVariable, t: Ty, f0: nat)
    requires
        resolvable(s),
        !s.contains_key(v),
        occurs(v, t, s, f0) == Some(false),
    ensures
        resolve(u, s.insert(v, t), need(u, s) + need(t, s) + f0 + 1) is Some,
    decreases need(u, s),
{
    let s2 = s.insert(v, t);
    let k = need(t, s) + f0 + 1;
    lemma_resolves(u, s);
    lemma_resolves(t, s);
    lemma_need(u, s);
    lemma_need(t, s);
    let b = need(u, s) + k;
    match u {
        Ty::Var(w) => {
            if w == v {
                lemma_occurs_fuel(v, t, s, f0, (b - 1) as nat);
                lemma_bind_unseen(v, t, t, s, (b - 1) as nat);
                lemma_resolve_fuel(t, s, need(t, s), (b - 1) as nat);
            } else if s.contains_key(w) {
                lemma_need_var(w, s);
                lemma_bind_resolves(s[w], s, v, t, f0);
                lemma_resolve_fuel(s[w], s2, need(s[w], s) + k, (b - 1) as nat);
            }
        },
        Ty::Con { typ, generics, token } => {
            assert forall|i: int| 0 <= i < generics.len() implies (#[trigger] resolve(
                generics[i],
                s2,
                (b - 1) as nat,
            )) is Some by {
                lemma_need_con(u, s, i);
                lemma_bind_resolves(generics[i], s, v, t, f0);
                lemma_resolve_fuel(generics[i], s2, need(generics[i], s) + k, (b - 1) as nat);
            }
            lemma_resolve_all(generics, s2, (b - 1) as nat);
        },
    }
}

/// Binding an unbound variable to a type in which it does not occur keeps every variable
/// resolvable.
pub proof fn lemma_bind_resolvable(s: Map<TypeVariable, Ty>, v: TypeVariable, t: Ty, f0: nat)
    requires
        resolvable(s),
        !s.contains_key(v),
        occurs(v, t, s, f0) == Some(false),
    ensures
        resolvable(s.insert(v, t)),
{
    assert forall|w: TypeVariable| #[trigger] resolves(Ty::Var(w), s.insert(v, t)) by {
        lemma_bind_resolves(Ty::Var(w), s, v, t, f0);
    }
}

/// Whether variable `w` is written in `t`.
pub open spec fn mentions(t: Ty, w: TypeVariable) -> bool
    decreases t,
{
    match t {
        Ty::Var(v) => v == w,
        Ty::Con { typ: _, generics, token: _ } => mentions_any(generics, w),
    }
}

/// Whether variable `w` is written in one of `ts`.
pub open spec fn mentions_any(ts: Seq<Ty>, w: TypeVariable) -> bool
    decreases ts,
{
    ts.len() > 0 && (mentions_any(ts.drop_last(), w) || mentions(ts.last(), w))
}

proof fn lemma_mentions_any(ts: Seq<Ty>, w: TypeVariable)
    ensures
        mentions_any(ts, w) <==> exists|i: int| 0 <= i < ts.len() && #[trigger] mentions(ts[i], w),
    decreases ts.len(),
{
    if ts.len() > 0 {
        lemma_mentions_any(ts.drop_last(), w);
        if mentions_any(ts.drop_last(), w) {
            let i = choose|i: int| 0 <= i < ts.drop_last().len() && #[trigger] mentions(
                ts.drop_last()[i],
                w,
            );
            assert(mentions(ts[i], w));
        }
        if mentions(ts.last(), w) {
            assert(mentions(ts[ts.len() - 1], w));
        }
        if exists|i: int| 0 <= i < ts.len() && #[trigger] mentions(ts[i], w) {
            let i = choose|i: int| 0 <= i < ts.len() && #[trigger] mentions(ts[i], w);
            if i < ts.len() - 1 {
                assert(mentions(ts.drop_last()[i], w));
            }
        }
    }
}

/// Whether every variable written in `t` is in `vars`.
pub open spec fn within(t: Ty, vars: Set<TypeVariable>) -> bool {
    forall|w: TypeVariable| #[trigger] mentions(t, w) ==> vars.contains(w)
}

/// Whether every variable written in what `s` binds is in `vars`.
pub open spec fn bindings_within(s: Map<TypeVariable, Ty>, vars: Set<TypeVariable>) -> bool {
    forall|v: TypeVariable| #[trigger] s.contains_key(v) ==> within(s[v], vars)
}

proof fn lemma_within_generics(t: Ty, vars: Set<TypeVariable>)
    requires
        t is Con,
        within(t, vars),
    ensures
        forall|i: int| 0 <= i < t->Con_generics.len() ==> within(#[trigger] t->Con_generics[i], vars),
{
    assert forall|i: int| 0 <= i < t->Con_generics.len() implies within(
        #[trigger] t->Con_generics[i],
        vars,
    ) by {
        assert forall|w: TypeVariable| #[trigger] mentions(t->Con_generics[i], w) implies vars.contains(
            w,
        ) by {
            lemma_mentions_any(t->Con_generics, w);
            assert(mentions(t, w));
        }
    }
}

/// Unification binds only variables of `vars` to types within `vars`, when its arguments and
/// bindings are within `vars`.
proof fn lemma_unify_within(l: Ty, r: Ty, s: Map<TypeVariable, Ty>, fuel: nat, vars: Set<TypeVariable>)
    requires
        unify_spec(l, r, s, fuel) is Some,
        within(l, vars),
        within(r, vars),
        bindings_within(s, vars),
    ensures
        bindings_within(unify_spec(l, r, s, fuel).unwrap().0, vars),
        forall|w: TypeVariable|
            #[trigger] unify_spec(l, r, s, fuel).unwrap().0.contains_key(w) && !s.contains_key(w)
                ==> vars.contains(w),
    decreases fuel, 0int,
{
    let f = (fuel - 1) as nat;
    if l is Con && r is Con {
        lemma_within_generics(l, vars);
        lemma_within_generics(r, vars);
        lemma_pairs_within(l->Con_generics, r->Con_generics, 0, s, f, vars);
    } else if l is Var && r is Var && l->Var_0 == r->Var_0 {
    } else if r is Var {
        let v = r->Var_0;
        assert(mentions(r, v));
        if s.contains_key(v) {
            lemma_unify_within(l, s[v], s, f, vars);
        }
    } else {
        let v = l->Var_0;
        assert(mentions(l, v));
        if s.contains_key(v) {
            lemma_unify_within(r, s[v], s, f, vars);
        }
    }
}

proof fn lemma_pairs_within(
    g1: Seq<Ty>,
    g2: Seq<Ty>,
    k: int,
    s: Map<TypeVariable, Ty>,
    fuel: nat,
    vars: Set<TypeVariable>,
)
    requires
        unify_pairs(g1, g2, k, s, fuel) is Some,
        forall|i: int| 0 <= i < g1.len() ==> within(#[trigger] g1[i], vars),
        forall|i: int| 0 <= i < g2.len() ==> within(#[trigger] g2[i], vars),
        bindings_within(s, vars),
    ensures
        bindings_within(unify_pairs(g1, g2, k, s, fuel).unwrap().0, vars),
        forall|w: TypeVariable|
            #[trigger] unify_pairs(g1, g2, k, s, fuel).unwrap().0.contains_key(w) && !s.contains_key(w)
                ==> vars.contains(w),
    decreases fuel, g1.len() - k + 1,
{
    if 0 <= k < g1.len() && k < g2.len() {
        let s1 = unify_spec(g1[k], g2[k], s, fuel).unwrap().0;
        lemma_unify_within(g1[k], g2[k], s, fuel, vars);
        lemma_pairs_within(g1, g2, k + 1, s1, fuel, vars);
        crate::unification::lemma_unify_extends(g1[k], g2[k], s, fuel);
    }
}

/// Unification keeps every variable resolvable.
proof fn lemma_unify_resolvable(l: Ty, r: Ty, s: Map<TypeVariable, Ty>, fuel: nat)
    requires
        unify_spec(l, r, s, fuel) is Some,
        resolvable(s),
    ensures
        resolvable(unify_spec(l, r, s, fuel).unwrap().0),
    decreases fuel, 0int,
{
    let f = (fuel - 1) as nat;
    if l is Con && r is Con {
        lemma_pairs_resolvable(l->Con_generics, r->Con_generics, 0, s, f);
    } else if l is Var && r is Var && l->Var_0 == r->Var_0 {
    } else if r is Var {
        let v = r->Var_0;
        if s.contains_key(v) {
            lemma_unify_resolvable(l, s[v], s, f);
        } else {
            lemma_bind_resolvable(s, v, l, f);
        }
    } else {
        let v = l->Var_0;
        if s.contains_key(v) {
            lemma_unify_resolvable(r, s[v], s, f);
        } else {
            lemma_bind_resolvable(s, v, r, f);
        }
    }
}

proof fn lemma_pairs_resolvable(g1: Seq<Ty>, g2: Seq<Ty>, k: int, s: Map<TypeVariable, Ty>, fuel: nat)
    requires
        unify_pairs(g1, g2, k, s, fuel) is Some,
        resolvable(s),
    ensures
        resolvable(unify_pairs(g1, g2, k, s, fuel).unwrap().0),
    decreases fuel, g1.len() - k + 1,
{
    if 0 <= k < g1.len() && k < g2.len() {
        let s1 = unify_spec(g1[k], g2[k], s, fuel).unwrap().0;
        lemma_unify_resolvable(g1[k], g2[k], s, fuel);
        lemma_pairs_resolvable(g1, g2, k + 1, s1, fuel);
    }
}

/// Whether unifying `l` with `r` under `s` stops, within `fuel`, at a variable that occurs in
/// the type it would be bound to.
pub open spec fn unify_fails(l: Ty, r: Ty, s: Map<TypeVariable, Ty>, fuel: nat) -> bool
    decreases fuel, 0int,
{
    if fuel == 0 {
        false
    } else {
        let f = (fuel - 1) as nat;
        if l is Con && r is Con {
            &&& (!same_type(l->Con_typ, r->Con_typ) || l->Con_generics.len()
                != r->Con_generics.len()) ==> resolve(r, s, f) is Some && resolve(l, s, f) is Some
            &&& pairs_fail(l->Con_generics, r->Con_generics, 0, s, f)
        } else if l is Var && r is Var && l->Var_0 == r->Var_0 {
            false
        } else if r is Var {
            let v = r->Var_0;
            if s.contains_key(v) {
                unify_fails(l, s[v], s, f)
            } else {
                occurs(v, l, s, f) == Some(true)
            }
        } else {
            let v = l->Var_0;
            if s.contains_key(v) {
                unify_fails(r, s[v], s, f)
            } else {
                occurs(v, r, s, f) == Some(true)
            }
        }
    }
}

/// Whether unifying the argument pairs from index `k` on stops at such a variable.
pub open spec fn pairs_fail(g1: Seq<Ty>, g2: Seq<Ty>, k: int, s: Map<TypeVariable, Ty>, fuel: nat) -> bool
    decreases fuel, g1.len() - k + 1,
{
    if k < 0 || k >= g1.len() || k >= g2.len() {
        false
    } else {
        unify_fails(g1[k], g2[k], s, fuel) || match unify_spec(g1[k], g2[k], s, fuel) {
            Some((s1, _)) => pairs_fail(g1, g2, k + 1, s1, fuel),
            None => false,
        }
    }
}

proof fn lemma_fails_fuel(l: Ty, r: Ty, s: Map<TypeVariable, Ty>, f1: nat, f2: nat)
    requires
        unify_fails(l, r, s, f1),
        f1 <= f2,
    ensures
        unify_fails(l, r, s, f2),
    decreases f1, 0int,
{
    let (g1, g2) = ((f1 - 1) as nat, (f2 - 1) as nat);
    if l is Con && r is Con {
        if !same_type(l->Con_typ, r->Con_typ) || l->Con_generics.len() != r->Con_generics.len() {
            lemma_resolve_fuel(r, s, g1, g2);
            lemma_resolve_fuel(l, s, g1, g2);
        }
        lemma_pairs_fail_fuel(l->Con_generics, r->Con_generics, 0, s, g1, g2);
    } else if l is Var && r is Var && l->Var_0 == r->Var_0 {
    } else if r is Var {
        let v = r->Var_0;
        if s.contains_key(v) {
            lemma_fails_fuel(l, s[v], s, g1, g2);
        } else {
            lemma_occurs_fuel(v, l, s, g1, g2);
        }
    } else {
        let v = l->Var_0;
        if s.contains_key(v) {
            lemma_fails_fuel(r, s[v], s, g1, g2);
        } else {
            lemma_occurs_fuel(v, r, s, g1, g2);
        }
    }
}

proof fn lemma_pairs_fail_fuel(g1: Seq<Ty>, g2: Seq<Ty>, k: int, s: Map<TypeVariable, Ty>, f1: nat, f2: nat)
    requires
        pairs_fail(g1, g2, k, s, f1),
        f1 <= f2,
    ensures
        pairs_fail(g1, g2, k, s, f2),
    decreases f1, g1.len() - k + 1,
{
    if unify_fails(g1[k], g2[k], s, f1) {
        lemma_fails_fuel(g1[k], g2[k], s, f1, f2);
    } else {
        lemma_unify_fuel(g1[k], g2[k], s, f1, f2);
        let s1 = unify_spec(g1[k], g2[k], s, f1).unwrap().0;
        lemma_pairs_fail_fuel(g1, g2, k + 1, s1, f1, f2);
    }
}

/// The most fuel that resolving an argument pair from index `k` on needs, both sides together.
pub open spec fn pairs_need(g1: Seq<Ty>, g2: Seq<Ty>, k: int, s: Map<TypeVariable, Ty>) -> nat
    decreases g1.len() - k,
{
    if k < 0 || k >= g1.len() || k >= g2.len() {
        0
    } else {
        let here = need(g1[k], s) + need(g2[k], s);
        let rest = pairs_need(g1, g2, k + 1, s);
        if here < rest {
            rest
        } else {
            here
        }
    }
}

proof fn lemma_pairs_need_bound(g1: Seq<Ty>, g2: Seq<Ty>, k: int, s: Map<TypeVariable, Ty>, b: nat)
    requires
        0 <= k,
        forall|i: int| k <= i < g1.len() && i < g2.len() ==> need(#[trigger] g1[i], s) + need(g2[i], s) <= b,
    ensures
        pairs_need(g1, g2, k, s) <= b,
    decreases g1.len() - k,
{
    if k < g1.len() && k < g2.len() {
        lemma_pairs_need_bound(g1, g2, k + 1, s, b);
    }
}

/// Binding more variables leaves fewer of `vars` unbound.
proof fn lemma_fewer_unbound(vars: Set<TypeVariable>, s: Map<TypeVariable, Ty>, s1: Map<TypeVariable, Ty>, w: TypeVariable)
    requires
        vars.finite(),
        s.submap_of(s1),
        vars.contains(w),
        s1.contains_key(w),
        !s.contains_key(w),
    ensures
        vars.difference(s1.dom()).len() < vars.difference(s.dom()).len(),
{
    let a = vars.difference(s.dom());
    let b = vars.difference(s1.dom());
    assert(b.subset_of(a.remove(w)));
    vstd::set_lib::lemma_len_subset(b, a.remove(w));
}

proof fn lemma_unify_ends(l: Ty, r: Ty, s: Map<TypeVariable, Ty>, vars: Set<TypeVariable>)
    requires
        resolvable(s),
        vars.finite(),
        within(l, vars),
        within(r, vars),
        bindings_within(s, vars),
    ensures
        exists|f: nat| #[trigger] unify_spec(l, r, s, f) is Some || unify_fails(l, r, s, f),
    decreases vars.difference(s.dom()).len(), need(l, s) + need(r, s), 0int,
{
    lemma_resolves(l, s);
    lemma_resolves(r, s);
    lemma_need(l, s);
    lemma_need(r, s);
    if l is Con && r is Con {
        let (g1, g2) = (l->Con_generics, r->Con_generics);
        lemma_within_generics(l, vars);
        lemma_within_generics(r, vars);
        assert forall|i: int| 0 <= i < g1.len() && i < g2.len() implies need(#[trigger] g1[i], s)
            + need(g2[i], s) <= (need(l, s) + need(r, s) - 1) as nat by {
            lemma_need_con(l, s, i);
            lemma_need_con(r, s, i);
        }
        lemma_pairs_need_bound(g1, g2, 0, s, (need(l, s) + need(r, s) - 1) as nat);
        let b = pairs_need(g1, g2, 0, s);
        lemma_pairs_end(g1, g2, 0, s, vars, b);
        let fp = choose|f: nat| #[trigger] unify_pairs(g1, g2, 0, s, f) is Some || pairs_fail(g1, g2, 0, s, f);
        let big = if fp < need(l, s) + need(r, s) {
            need(l, s) + need(r, s)
        } else {
            fp
        };
        lemma_resolve_fuel(l, s, need(l, s), big);
        lemma_resolve_fuel(r, s, need(r, s), big);
        if unify_pairs(g1, g2, 0, s, fp) is Some {
            lemma_unify_pairs_fuel(g1, g2, 0, s, fp, big);
            assert(unify_spec(l, r, s, big + 1) is Some);
        } else {
            lemma_pairs_fail_fuel(g1, g2, 0, s, fp, big);
            assert(unify_fails(l, r, s, big + 1));
        }
    } else if l is Var && r is Var && l->Var_0 == r->Var_0 {
        assert(unify_spec(l, r, s, 1) is Some);
    } else if r is Var {
        let v = r->Var_0;
        if s.contains_key(v) {
            lemma_need_var(v, s);
            lemma_unify_ends(l, s[v], s, vars);
            let f1 = choose|f: nat| #[trigger] unify_spec(l, s[v], s, f) is Some || unify_fails(l, s[v], s, f);
            assert(unify_spec(l, r, s, f1 + 1) is Some || unify_fails(l, r, s, f1 + 1));
        } else {
            lemma_occurs_finishes(v, l, s, need(l, s));
            assert(unify_spec(l, r, s, need(l, s) + 1) is Some || unify_fails(l, r, s, need(l, s) + 1));
        }
    } else {
        let v = l->Var_0;
        if s.contains_key(v) {
            lemma_need_var(v, s);
            lemma_unify_ends(r, s[v], s, vars);
            let f1 = choose|f: nat| #[trigger] unify_spec(r, s[v], s, f) is Some || unify_fails(r, s[v], s, f);
            assert(unify_spec(l, r, s, f1 + 1) is Some || unify_fails(l, r, s, f1 + 1));
        } else {
            lemma_occurs_finishes(v, r, s, need(r, s));
            assert(unify_spec(l, r, s, need(r, s) + 1) is Some || unify_fails(l, r, s, need(r, s) + 1));
        }
    }
}

proof fn lemma_pairs_end(
    g1: Seq<Ty>,
    g2: Seq<Ty>,
    k: int,
    s: Map<TypeVariable, Ty>,
    vars: Set<TypeVariable>,
    b: nat,
)
    requires
        resolvable(s),
        vars.finite(),
        forall|i: int| 0 <= i < g1.len() ==> within(#[trigger] g1[i], vars),
        forall|i: int| 0 <= i < g2.len() ==> within(#[trigger] g2[i], vars),
        bindings_within(s, vars),
        0 <= k,
        pairs_need(g1, g2, k, s) <= b,
    ensures
        exists|f: nat| #[trigger] unify_pairs(g1, g2, k, s, f) is Some || pairs_fail(g1, g2, k, s, f),
    decreases vars.difference(s.dom()).len(), b, g1.len() - k + 1,
{
    if k < g1.len() && k < g2.len() {
        lemma_unify_ends(g1[k], g2[k], s, vars);
        let f1 = choose|f: nat| #[trigger] unify_spec(g1[k], g2[k], s, f) is Some || unify_fails(g1[k], g2[k], s, f);
        if unify_fails(g1[k], g2[k], s, f1) {
            assert(pairs_fail(g1, g2, k, s, f1));
            assert(unify_pairs(g1, g2, k, s, f1) is Some || pairs_fail(g1, g2, k, s, f1));
        } else {
            let s1 = unify_spec(g1[k], g2[k], s, f1).unwrap().0;
            crate::unification::lemma_unify_extends(g1[k], g2[k], s, f1);
            lemma_unify_within(g1[k], g2[k], s, f1, vars);
            lemma_unify_resolvable(g1[k], g2[k], s, f1);
            if s1.dom() =~= s.dom() {
                assert(s1 =~= s);
                lemma_pairs_end(g1, g2, k + 1, s1, vars, b);
            } else {
                let w = choose|w: TypeVariable| s1.contains_key(w) && !s.contains_key(w);
                lemma_fewer_unbound(vars, s, s1, w);
                lemma_pairs_end(g1, g2, k + 1, s1, vars, pairs_need(g1, g2, k + 1, s1));
            }
            let f2 = choose|f: nat| #[trigger] unify_pairs(g1, g2, k + 1, s1, f) is Some || pairs_fail(g1, g2, k + 1, s1, f);
            let big = if f1 < f2 {
                f2
            } else {
                f1
            };
            lemma_unify_fuel(g1[k], g2[k], s, f1, big);
            if unify_pairs(g1, g2, k + 1, s1, f2) is Some {
                lemma_unify_pairs_fuel(g1, g2, k + 1, s1, f2, big);
                assert(unify_pairs(g1, g2, k, s, big) is Some);
            } else {
                lemma_pairs_fail_fuel(g1, g2, k + 1, s1, f2, big);
                assert(pairs_fail(g1, g2, k, s, big));
                assert(unify_pairs(g1, g2, k, s, big) is Some || pairs_fail(g1, g2, k, s, big));
            }
        }
    } else {
        assert(unify_pairs(g1, g2, k, s, 0) is Some);
        assert(unify_pairs(g1, g2, k, s, 0) is Some || pairs_fail(g1, g2, k, s, 0));
    }
}

/// The variables written in `t`.
pub open spec fn vars_of(t: Ty) -> Set<TypeVariable>
    decreases t,
{
    match t {
        Ty::Var(v) => set![v],
        Ty::Con { typ: _, generics, token: _ } => vars_of_all(generics),
    }
}

/// The variables written in `ts`.
pub open spec fn vars_of_all(ts: Seq<Ty>) -> Set<TypeVariable>
    decreases ts,
{
    if ts.len() == 0 {
        Set::empty()
    } else {
        vars_of_all(ts.drop_last()).union(vars_of(ts.last()))
    }
}

proof fn lemma_vars_of(t: Ty)
    ensures
        vars_of(t).finite(),
        forall|w: TypeVariable| #[trigger] vars_of(t).contains(w) <==> mentions(t, w),
    decreases t,
{
    if let Ty::Con { typ: _, generics, token: _ } = t {
        lemma_vars_of_all(generics);
    }
}

proof fn lemma_vars_of_all(ts: Seq<Ty>)
    ensures
        vars_of_all(ts).finite(),
        forall|w: TypeVariable| #[trigger] vars_of_all(ts).contains(w) <==> mentions_any(ts, w),
    decreases ts,
{
    if ts.len() > 0 {
        lemma_vars_of_all(ts.drop_last());
        lemma_vars_of(ts.last());
    }
}

/// The variables written in what `s` binds.
pub open spec fn binding_vars(s: Map<TypeVariable, Ty>) -> Set<TypeVariable>
    decreases s.dom().len(),
    when s.dom().finite()
{
    if s.dom().len() == 0 {
        Set::empty()
    } else {
        let v = s.dom().choose();
        binding_vars(s.remove(v)).union(vars_of(s[v]))
    }
}

proof fn lemma_binding_vars(s: Map<TypeVariable, Ty>)
    requires
        s.dom().finite(),
    ensures
        binding_vars(s).finite(),
        bindings_within(s, binding_vars(s)),
    decreases s.dom().len(),
{
    if s.dom().len() > 0 {
        let v = s.dom().choose();
        assert(s.dom().contains(v));
        let rest = s.remove(v);
        assert(rest.dom() =~= s.dom().remove(v));
        lemma_binding_vars(rest);
        lemma_vars_of(s[v]);
        assert forall|u: TypeVariable| #[trigger] s.contains_key(u) implies within(s[u], binding_vars(s)) by {
            if u == v {
                assert forall|w: TypeVariable| #[trigger] mentions(s[u], w) implies binding_vars(s).contains(w) by {
                    assert(vars_of(s[v]).contains(w));
                }
            } else {
                assert(rest.contains_key(u));
                assert(within(rest[u], binding_vars(rest)));
            }
        }
    }
}

/// Unification cannot both stop at an occurring variable and finish, within the same fuel.
pub proof fn lemma_fails_excludes(l: Ty, r: Ty, s: Map<TypeVariable, Ty>, fuel: nat)
    ensures
        unify_fails(l, r, s, fuel) ==> unify_spec(l, r, s, fuel) is None,
    decreases fuel, 0int,
{
    if fuel > 0 {
        let f = (fuel - 1) as nat;
        if l is Con && r is Con {
            lemma_pairs_fail_excludes(l->Con_generics, r->Con_generics, 0, s, f);
        } else if l is Var && r is Var && l->Var_0 == r->Var_0 {
        } else if r is Var {
            if s.contains_key(r->Var_0) {
                lemma_fails_excludes(l, s[r->Var_0], s, f);
            }
        } else {
            if s.contains_key(l->Var_0) {
                lemma_fails_excludes(r, s[l->Var_0], s, f);
            }
        }
    }
}

/// The argument pairs cannot both stop at an occurring variable and finish.
pub proof fn lemma_pairs_fail_excludes(g1: Seq<Ty>, g2: Seq<Ty>, k: int, s: Map<TypeVariable, Ty>, fuel: nat)
    ensures
        pairs_fail(g1, g2, k, s, fuel) ==> unify_pairs(g1, g2, k, s, fuel) is None,
    decreases fuel, g1.len() - k + 1,
{
    if 0 <= k < g1.len() && k < g2.len() {
        lemma_fails_excludes(g1[k], g2[k], s, fuel);
        match unify_spec(g1[k], g2[k], s, fuel) {
            Some((s1, _)) => lemma_pairs_fail_excludes(g1, g2, k + 1, s1, fuel),
            None => {},
        }
    }
}

/// Stopping at an occurring variable, within some fuel, means unification never finishes.
pub proof fn lemma_fails_not_unifiable(l: Ty, r: Ty, s: Map<TypeVariable, Ty>, f: nat)
    requires
        unify_fails(l, r, s, f),
    ensures
        !unifiable(l, r, s),
{
    if unifiable(l, r, s) {
        let g = choose|g: nat| #[trigger] unify_spec(l, r, s, g) is Some;
        if g <= f {
            lemma_unify_fuel(l, r, s, g, f);
            lemma_fails_excludes(l, r, s, f);
        } else {
            lemma_fails_fuel(l, r, s, f, g);
            lemma_fails_excludes(l, r, s, g);
        }
    }
}

/// Unification ends: under bindings in which every variable resolves, it either finishes or
/// stops at a variable that occurs in the type it is to be bound to.
pub proof fn law_unify_ends(l: Ty, r: Ty, s: Map<TypeVariable, Ty>)
    requires
        resolvable(s),
        s.dom().finite(),
    ensures
        exists|f: nat| #[trigger] unify_spec(l, r, s, f) is Some || unify_fails(l, r, s, f),
{
    lemma_vars_of(l);
    lemma_vars_of(r);
    lemma_binding_vars(s);
    let vars = vars_of(l).union(vars_of(r)).union(binding_vars(s));
    assert forall|v: TypeVariable| #[trigger] s.contains_key(v) implies within(s[v], vars) by {
        assert(within(s[v], binding_vars(s)));
    }
    lemma_unify_ends(l, r, s, vars);
}

/// Unification keeps every variable resolvable.
pub proof fn law_unify_resolvable(l: Ty, r: Ty, s: Map<TypeVariable, Ty>)
    requires
        resolvable(s),
        unifiable(l, r, s),
    ensures
        resolvable(unification(l, r, s).0),
{
    let fuel = choose|f: nat| #[trigger] unify_spec(l, r, s, f) is Some;
    lemma_unify_resolvable(l, r, s, fuel);
}

/// Under bindings in which every variable resolves, a unification without mismatches makes
/// the two types equal: under the bindings it ends with, both resolve, to the same shape.
pub proof fn law_unify_equates(l: Ty, r: Ty, s: Map<TypeVariable, Ty>)
    requires
        resolvable(s),
        unifiable(l, r, s),
        unification(l, r, s).1.len() == 0,
    ensures
        exists|f: nat|
            #![trigger resolve(l, unification(l, r, s).0, f)]
            resolve(l, unification(l, r, s).0, f) is Some && resolve(r, unification(l, r, s).0, f)
                is Some && same_shape(
                resolve(l, unification(l, r, s).0, f).unwrap(),
                resolve(r, unification(l, r, s).0, f).unwrap(),
            ),
{
    let s2 = unification(l, r, s).0;
    law_unify_resolvable(l, r, s);
    lemma_resolves(l, s2);
    lemma_resolves(r, s2);
    lemma_need(l, s2);
    lemma_need(r, s2);
    let f = if need(l, s2) < need(r, s2) {
        need(r, s2)
    } else {
        need(l, s2)
    };
    lemma_resolve_fuel(l, s2, need(l, s2), f);
    lemma_resolve_fuel(r, s2, need(r, s2), f);
    law_unify_unifies(l, r, s);
    assert(resolve(l, s2, f) is Some && resolve(r, s2, f) is Some);
}

} // verus!

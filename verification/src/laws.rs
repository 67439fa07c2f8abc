//! Laws of the engine: properties that hold of whole families of inputs,
//! stated over the walk models and proved once and for all.

use vstd::prelude::*;

use crate::canon::canon;
use crate::env::env_find;
use crate::env::store_find;
use crate::env::CloV;
use crate::env::EnvV;
use crate::env::UnifV;
use crate::names::NameV;
use crate::resolve::resolve_r;
use crate::subtype::pre_match_s;
use crate::subtype::walk_neg;
use crate::terms::lemma_size_arms_elem;
use crate::terms::lemma_size_pairs_elem;
use crate::terms::lemma_size_pos;
use crate::terms::lemma_size_seq_elem;
use crate::terms::size;
use crate::terms::size_arms;
use crate::terms::size_pairs;
use crate::terms::size_seq;
use crate::terms::TyErrV;
use crate::terms::TyV;

verus! {

/// Divergence guard: checking a self-referential type variable against itself
/// — a variable its environment binds to itself, the mu-protected case —
/// terminates at once, with no recorded determination, whatever the store
/// holds and however small the remaining budget (as long as any remains).
/// Protection short-circuits recursion: the name is compared by name, never
/// expanded.
pub proof fn lemma_protected_self_check_terminates(
    n: NameV,
    e1: EnvV,
    e2: EnvV,
    st: UnifV,
    fuel: nat,
)
    requires
        fuel >= 1,
        env_find(e1, n) == Some(TyV::Var(n)),
        env_find(e2, n) == Some(TyV::Var(n)),
    ensures
        walk_neg(CloV { it: TyV::Var(n), env: e1 }, CloV { it: TyV::Var(n), env: e2 }, st, fuel)
            == (Ok::<(), TyErrV>(()), st),
{
    let sup = CloV { it: TyV::Var(n), env: e1 };
    let sub = CloV { it: TyV::Var(n), env: e2 };
    assert(resolve_r(sup, st.entries, fuel) == Ok::<CloV, TyErrV>(sup));
    assert(resolve_r(sub, st.entries, fuel) == Ok::<CloV, TyErrV>(sub));
    assert(pre_match_s(sup, sub, st, fuel) == (
        Ok::<Option<(CloV, CloV)>, TyErrV>(Some((sup, sub))),
        st,
    ));
}

/// Placeholder merge: when the candidate and the expected type are both
/// underdetermined, with different names and neither yet determined, the
/// check succeeds, records exactly one determination — the candidate's name
/// bound to the expected placeholder — and afterwards both names resolve to
/// the same term.
pub proof fn lemma_placeholder_merge(
    a: NameV,
    b: NameV,
    env: EnvV,
    e1: EnvV,
    e2: EnvV,
    st: UnifV,
    fuel: nat,
)
    requires
        fuel >= 2,
        a != b,
        store_find(st.entries, a) is None,
        store_find(st.entries, b) is None,
    ensures
        ({
            // checking `sub = Undet(a)` against `sup = Undet(b)`:
            let (r, st2) = walk_neg(
                CloV { it: TyV::Undet(b), env },
                CloV { it: TyV::Undet(a), env },
                st,
                fuel,
            );
            &&& r == Ok::<(), TyErrV>(())
            &&& st2.entries == st.entries.push((a, CloV { it: TyV::Undet(b), env }))
            &&& st2.next == st.next
            // both names now resolve to the same placeholder term:
            &&& resolve_r(CloV { it: TyV::Undet(a), env: e1 }, st2.entries, fuel) matches Ok(ca)
                && ca.it == TyV::Undet(b)
            &&& resolve_r(CloV { it: TyV::Undet(b), env: e2 }, st2.entries, fuel) matches Ok(cb)
                && cb.it == TyV::Undet(b)
        }),
{
    let sup = CloV { it: TyV::Undet(b), env };
    let sub = CloV { it: TyV::Undet(a), env };
    assert(resolve_r(sup, st.entries, fuel) == Ok::<CloV, TyErrV>(sup));
    assert(resolve_r(sub, st.entries, fuel) == Ok::<CloV, TyErrV>(sub));
    let entries2 = st.entries.push((a, sup));
    assert(pre_match_s(sup, sub, st, fuel) == (
        Ok::<Option<(CloV, CloV)>, TyErrV>(None),
        UnifV { entries: entries2, next: st.next },
    ));
    // resolving `a` in the extended store finds the new determination, and
    // `b` stays unbound:
    assert(entries2[entries2.len() - 1] == (a, sup));
    assert(entries2.subrange(0, entries2.len() - 1) =~= st.entries);
    assert(store_find(entries2, a) == Some(sup));
    assert(store_find(entries2, b) is None);
    assert(resolve_r(CloV { it: TyV::Undet(b), env: e2 }, entries2, fuel)
        == Ok::<CloV, TyErrV>(CloV { it: TyV::Undet(b), env: e2 }));
    assert(resolve_r(sup, entries2, (fuel - 1) as nat) == Ok::<CloV, TyErrV>(sup));
    assert(resolve_r(CloV { it: TyV::Undet(a), env: e1 }, entries2, fuel)
        == Ok::<CloV, TyErrV>(sup));
}

/// A struct component list with no repeated names.
pub open spec fn distinct_keys(pairs: Seq<(NameV, TyV)>) -> bool {
    forall|i: int, j: int| 0 <= i < j < pairs.len() ==> pairs[i].0 != pairs[j].0
}

/// A purely structural type: base types, function types, tuples, structs
/// with distinct component names, and enums — no variables, no placeholders,
/// no delayed applications, no binders, no splices.
pub open spec fn first_order(t: TyV) -> bool
    decreases size(t), 0nat,
{
    match t {
        TyV::Base(_) => true,
        TyV::Func { params, ret } => first_order_seq(params) && first_order(*ret),
        TyV::Tuple(comps) => first_order_seq(comps),
        TyV::Struct(pairs) => distinct_keys(pairs) && first_order_pairs(pairs),
        TyV::Enum(arms) => first_order_arms(arms),
        _ => false,
    }
}

pub open spec fn first_order_seq(s: Seq<TyV>) -> bool
    decreases size_seq(s), 1nat,
{
    if s.len() == 0 {
        true
    } else {
        proof {
            lemma_size_seq_elem(s, 0);
        }
        first_order(s[0]) && first_order_seq(s.subrange(1, s.len() as int))
    }
}

pub open spec fn first_order_pairs(s: Seq<(NameV, TyV)>) -> bool
    decreases size_pairs(s), 1nat,
{
    if s.len() == 0 {
        true
    } else {
        proof {
            lemma_size_pairs_elem(s, 0);
        }
        first_order(s[0].1) && first_order_pairs(s.subrange(1, s.len() as int))
    }
}

pub open spec fn first_order_arms(s: Seq<(NameV, Seq<TyV>)>) -> bool
    decreases size_arms(s), 2nat,
{
    if s.len() == 0 {
        true
    } else {
        proof {
            lemma_size_arms_elem(s, 0);
        }
        first_order_seq(s[0].1) && first_order_arms(s.subrange(1, s.len() as int))
    }
}

/// Every term of a structural list is structural.
pub proof fn lemma_fo_seq_index(s: Seq<TyV>, i: int)
    requires
        first_order_seq(s),
        0 <= i < s.len(),
    ensures
        first_order(s[i]),
    decreases s.len(),
{
    if i > 0 {
        lemma_fo_seq_index(s.subrange(1, s.len() as int), i - 1);
    }
}

/// Every component of a structural component list is structural.
pub proof fn lemma_fo_pairs_index(s: Seq<(NameV, TyV)>, i: int)
    requires
        first_order_pairs(s),
        0 <= i < s.len(),
    ensures
        first_order(s[i].1),
    decreases s.len(),
{
    if i > 0 {
        lemma_fo_pairs_index(s.subrange(1, s.len() as int), i - 1);
    }
}

/// Every arm of a structural arm list has a structural component list.
pub proof fn lemma_fo_arms_index(s: Seq<(NameV, Seq<TyV>)>, i: int)
    requires
        first_order_arms(s),
        0 <= i < s.len(),
    ensures
        first_order_seq(s[i].1),
    decreases s.len(),
{
    if i > 0 {
        lemma_fo_arms_index(s.subrange(1, s.len() as int), i - 1);
    }
}

/// Resolution is the identity on structural types: nothing in them refers
/// anywhere, so nothing moves, and no budget is consumed.
pub proof fn lemma_resolve_fixed_first_order(t: TyV, e: EnvV, st: Seq<(NameV, CloV)>, fuel: nat)
    requires
        first_order(t),
    ensures
        resolve_r(CloV { it: t, env: e }, st, fuel) == Ok::<CloV, TyErrV>(CloV { it: t, env: e }),
{
}

/// Canonicalization is the identity on structural types, whatever the
/// environment, the store, and the remaining budget.
pub proof fn lemma_canon_fixed_first_order(t: TyV, e: EnvV, st: Seq<(NameV, CloV)>, fuel: nat)
    requires
        first_order(t),
    ensures
        canon(CloV { it: t, env: e }, st, fuel) == Ok::<TyV, TyErrV>(t),
    decreases size(t), 0nat,
{
    match t {
        TyV::Func { params, ret } => {
            lemma_canon_each_fixed(params, e, st, fuel);
            lemma_canon_fixed_first_order(*ret, e, st, fuel);
            assert(canon(CloV { it: t, env: e }, st, fuel) == Ok::<TyV, TyErrV>(
                TyV::Func { params, ret: Box::new(*ret) },
            ));
            assert(TyV::Func { params, ret: Box::new(*ret) } == t);
        },
        TyV::Tuple(comps) => {
            lemma_canon_each_fixed(comps, e, st, fuel);
            assert(TyV::Tuple(comps) == t);
        },
        TyV::Struct(pairs) => {
            lemma_canon_pairs_fixed(pairs, e, st, fuel);
            assert(TyV::Struct(pairs) == t);
        },
        TyV::Enum(arms) => {
            lemma_canon_arms_fixed(arms, e, st, fuel);
            assert(TyV::Enum(arms) == t);
        },
        _ => {},
    }
}

pub proof fn lemma_canon_each_fixed(s: Seq<TyV>, e: EnvV, st: Seq<(NameV, CloV)>, fuel: nat)
    requires
        first_order_seq(s),
    ensures
        crate::canon::canon_each(s, e, st, fuel) == Ok::<Seq<TyV>, TyErrV>(s),
    decreases size_seq(s), 1nat,
{
    if s.len() == 0 {
        assert(crate::canon::canon_each(s, e, st, fuel) == Ok::<Seq<TyV>, TyErrV>(
            Seq::<TyV>::empty(),
        ));
        assert(s =~= Seq::<TyV>::empty());
    } else {
        lemma_size_seq_elem(s, 0);
        lemma_size_pos(s[0]);
        lemma_canon_fixed_first_order(s[0], e, st, fuel);
        lemma_canon_each_fixed(s.subrange(1, s.len() as int), e, st, fuel);
        assert(seq![s[0]] + s.subrange(1, s.len() as int) =~= s);
    }
}

pub proof fn lemma_canon_pairs_fixed(
    s: Seq<(NameV, TyV)>,
    e: EnvV,
    st: Seq<(NameV, CloV)>,
    fuel: nat,
)
    requires
        first_order_pairs(s),
    ensures
        crate::canon::canon_pairs(s, e, st, fuel) == Ok::<Seq<(NameV, TyV)>, TyErrV>(s),
    decreases size_pairs(s), 1nat,
{
    if s.len() == 0 {
        assert(s =~= Seq::<(NameV, TyV)>::empty());
    } else {
        lemma_size_pairs_elem(s, 0);
        lemma_size_pos(s[0].1);
        lemma_canon_fixed_first_order(s[0].1, e, st, fuel);
        lemma_canon_pairs_fixed(s.subrange(1, s.len() as int), e, st, fuel);
        assert(seq![(s[0].0, s[0].1)] + s.subrange(1, s.len() as int) =~= s);
        assert((s[0].0, s[0].1) == s[0]);
    }
}

pub proof fn lemma_canon_arms_fixed(
    s: Seq<(NameV, Seq<TyV>)>,
    e: EnvV,
    st: Seq<(NameV, CloV)>,
    fuel: nat,
)
    requires
        first_order_arms(s),
    ensures
        crate::canon::canon_arms(s, e, st, fuel) == Ok::<Seq<(NameV, Seq<TyV>)>, TyErrV>(s),
    decreases size_arms(s), 2nat,
{
    if s.len() == 0 {
        assert(s =~= Seq::<(NameV, Seq<TyV>)>::empty());
    } else {
        lemma_size_arms_elem(s, 0);
        lemma_canon_each_fixed(s[0].1, e, st, fuel);
        lemma_canon_arms_fixed(s.subrange(1, s.len() as int), e, st, fuel);
        assert(seq![(s[0].0, s[0].1)] + s.subrange(1, s.len() as int) =~= s);
        assert((s[0].0, s[0].1) == s[0]);
    }
}

/// A reflexive shape, under a collection of protected names: a type whose
/// variable references all point at protected (mu-bound) names, built from
/// base types, function types, tuples, structs with distinct component names,
/// enums, and `mu` binders, whose own parameters are protected within their
/// bodies. Every such type is a subtype of itself.
pub open spec fn refl_shape(t: TyV, prot: Seq<NameV>) -> bool
    decreases size(t), 0nat,
{
    match t {
        TyV::Var(n) => prot.contains(n),
        TyV::Base(_) => true,
        TyV::Func { params, ret } => refl_shape_seq(params, prot) && refl_shape(*ret, prot),
        TyV::Mu { params, body } => refl_shape(*body, prot + params),
        TyV::Tuple(comps) => refl_shape_seq(comps, prot),
        TyV::Struct(pairs) => distinct_keys(pairs) && refl_shape_pairs(pairs, prot),
        TyV::Enum(arms) => refl_shape_arms(arms, prot),
        _ => false,
    }
}

pub open spec fn refl_shape_seq(s: Seq<TyV>, prot: Seq<NameV>) -> bool
    decreases size_seq(s), 1nat,
{
    if s.len() == 0 {
        true
    } else {
        proof {
            lemma_size_seq_elem(s, 0);
        }
        refl_shape(s[0], prot) && refl_shape_seq(s.subrange(1, s.len() as int), prot)
    }
}

pub open spec fn refl_shape_pairs(s: Seq<(NameV, TyV)>, prot: Seq<NameV>) -> bool
    decreases size_pairs(s), 1nat,
{
    if s.len() == 0 {
        true
    } else {
        proof {
            lemma_size_pairs_elem(s, 0);
        }
        refl_shape(s[0].1, prot) && refl_shape_pairs(s.subrange(1, s.len() as int), prot)
    }
}

pub open spec fn refl_shape_arms(s: Seq<(NameV, Seq<TyV>)>, prot: Seq<NameV>) -> bool
    decreases size_arms(s), 2nat,
{
    if s.len() == 0 {
        true
    } else {
        proof {
            lemma_size_arms_elem(s, 0);
        }
        refl_shape_seq(s[0].1, prot) && refl_shape_arms(s.subrange(1, s.len() as int), prot)
    }
}

pub proof fn lemma_refl_shape_seq_index(s: Seq<TyV>, prot: Seq<NameV>, i: int)
    requires
        refl_shape_seq(s, prot),
        0 <= i < s.len(),
    ensures
        refl_shape(s[i], prot),
    decreases s.len(),
{
    if i > 0 {
        lemma_refl_shape_seq_index(s.subrange(1, s.len() as int), prot, i - 1);
    }
}

pub proof fn lemma_refl_shape_pairs_index(s: Seq<(NameV, TyV)>, prot: Seq<NameV>, i: int)
    requires
        refl_shape_pairs(s, prot),
        0 <= i < s.len(),
    ensures
        refl_shape(s[i].1, prot),
    decreases s.len(),
{
    if i > 0 {
        lemma_refl_shape_pairs_index(s.subrange(1, s.len() as int), prot, i - 1);
    }
}

pub proof fn lemma_refl_shape_arms_index(s: Seq<(NameV, Seq<TyV>)>, prot: Seq<NameV>, i: int)
    requires
        refl_shape_arms(s, prot),
        0 <= i < s.len(),
    ensures
        refl_shape_seq(s[i].1, prot),
    decreases s.len(),
{
    if i > 0 {
        lemma_refl_shape_arms_index(s.subrange(1, s.len() as int), prot, i - 1);
    }
}

/// A structural type is a reflexive shape under any protected names.
pub proof fn lemma_fo_refl_shape(t: TyV, prot: Seq<NameV>)
    requires
        first_order(t),
    ensures
        refl_shape(t, prot),
    decreases size(t), 0nat,
{
    match t {
        TyV::Func { params, ret } => {
            lemma_fo_refl_shape_seq(params, prot);
            lemma_fo_refl_shape(*ret, prot);
        },
        TyV::Tuple(comps) => {
            lemma_fo_refl_shape_seq(comps, prot);
        },
        TyV::Struct(pairs) => {
            lemma_fo_refl_shape_pairs(pairs, prot);
        },
        TyV::Enum(arms) => {
            lemma_fo_refl_shape_arms(arms, prot);
        },
        _ => {},
    }
}

pub proof fn lemma_fo_refl_shape_seq(s: Seq<TyV>, prot: Seq<NameV>)
    requires
        first_order_seq(s),
    ensures
        refl_shape_seq(s, prot),
    decreases size_seq(s), 1nat,
{
    if s.len() > 0 {
        lemma_size_seq_elem(s, 0);
        lemma_fo_refl_shape(s[0], prot);
        lemma_fo_refl_shape_seq(s.subrange(1, s.len() as int), prot);
    }
}

pub proof fn lemma_fo_refl_shape_pairs(s: Seq<(NameV, TyV)>, prot: Seq<NameV>)
    requires
        first_order_pairs(s),
    ensures
        refl_shape_pairs(s, prot),
    decreases size_pairs(s), 1nat,
{
    if s.len() > 0 {
        lemma_size_pairs_elem(s, 0);
        lemma_fo_refl_shape(s[0].1, prot);
        lemma_fo_refl_shape_pairs(s.subrange(1, s.len() as int), prot);
    }
}

pub proof fn lemma_fo_refl_shape_arms(s: Seq<(NameV, Seq<TyV>)>, prot: Seq<NameV>)
    requires
        first_order_arms(s),
    ensures
        refl_shape_arms(s, prot),
    decreases size_arms(s), 2nat,
{
    if s.len() > 0 {
        lemma_size_arms_elem(s, 0);
        lemma_fo_refl_shape_seq(s[0].1, prot);
        lemma_fo_refl_shape_arms(s.subrange(1, s.len() as int), prot);
    }
}

/// Looking a name up in an environment extended by protections: a protected
/// parameter finds itself; any other name finds what it found before.
pub proof fn lemma_protect_find(e: EnvV, ps: Seq<NameV>, n: NameV)
    ensures
        ps.contains(n) ==> env_find(crate::canon::protect(e, ps), n) == Some(TyV::Var(n)),
        !ps.contains(n) ==> env_find(crate::canon::protect(e, ps), n) == env_find(e, n),
    decreases ps.len(),
{
    if ps.len() == 0 {
        assert(crate::canon::protect(e, ps) =~= e);
    } else {
        let last = ps[ps.len() - 1];
        let shorter = ps.subrange(0, ps.len() - 1);
        let whole = crate::canon::protect(e, ps);
        assert(whole[whole.len() - 1] == (last, TyV::Var(last)));
        assert(whole.subrange(0, whole.len() - 1) =~= crate::canon::protect(e, shorter));
        lemma_protect_find(e, shorter, n);
        if n == last {
            assert(ps.contains(n));
        } else {
            if ps.contains(n) {
                let i = choose|i: int| 0 <= i < ps.len() && ps[i] == n;
                assert(shorter[i] == n);
                assert(shorter.contains(n));
            }
            if shorter.contains(n) {
                let i = choose|i: int| 0 <= i < shorter.len() && shorter[i] == n;
                assert(ps[i] == n);
                assert(ps.contains(n));
            }
        }
    }
}

/// A mapping that sends every bound name to a reference to itself.
pub open spec fn identity_map(m: EnvV) -> bool {
    forall|i: int| 0 <= i < m.len() ==> #[trigger] m[i].1 == TyV::Var(m[i].0)
}

pub proof fn lemma_env_find_identity(m: EnvV, n: NameV)
    requires
        identity_map(m),
    ensures
        env_find(m, n) is None || env_find(m, n) == Some(TyV::Var(n)),
    decreases m.len(),
{
    if m.len() > 0 {
        let shorter = m.subrange(0, m.len() - 1);
        assert forall|i: int| 0 <= i < shorter.len() implies #[trigger] shorter[i].1 == TyV::Var(
            shorter[i].0,
        ) by {
            assert(shorter[i] == m[i]);
        }
        lemma_env_find_identity(shorter, n);
    }
}

/// The mapping that renames each parameter to itself.
pub proof fn lemma_mk_subst_identity(ps: Seq<NameV>)
    ensures
        identity_map(crate::resolve::mk_subst(ps, crate::subtype::var_terms(ps))),
{
}

/// Shadowing binders keeps a mapping an identity mapping.
pub proof fn lemma_shadow_identity(m: EnvV, ps: Seq<NameV>)
    requires
        identity_map(m),
    ensures
        identity_map(crate::subst::shadow(m, ps)),
{
    let whole = crate::subst::shadow(m, ps);
    assert forall|i: int| 0 <= i < whole.len() implies #[trigger] whole[i].1 == TyV::Var(
        whole[i].0,
    ) by {
        if i < m.len() {
            assert(whole[i] == m[i]);
        }
    }
}

/// Substituting an identity mapping changes nothing.
pub proof fn lemma_subst_identity(t: TyV, m: EnvV)
    requires
        identity_map(m),
    ensures
        crate::subst::subst(t, m) == t,
    decreases size(t), 0nat,
{
    match t {
        TyV::Var(n) => {
            lemma_env_find_identity(m, n);
        },
        TyV::Func { params, ret } => {
            lemma_subst_identity_seq(params, m);
            lemma_subst_identity(*ret, m);
            assert(TyV::Func { params, ret: Box::new(*ret) } == t);
        },
        TyV::Forall { params, body } => {
            lemma_shadow_identity(m, params);
            lemma_subst_identity(*body, crate::subst::shadow(m, params));
            assert(TyV::Forall { params, body: Box::new(*body) } == t);
        },
        TyV::Mu { params, body } => {
            lemma_shadow_identity(m, params);
            lemma_subst_identity(*body, crate::subst::shadow(m, params));
            assert(TyV::Mu { params, body: Box::new(*body) } == t);
        },
        TyV::Apply { rator, args } => {
            lemma_subst_identity(*rator, m);
            lemma_subst_identity_seq(args, m);
            assert(TyV::Apply { rator: Box::new(*rator), args } == t);
        },
        TyV::Tuple(comps) => {
            lemma_subst_identity_seq(comps, m);
        },
        TyV::Struct(pairs) => {
            lemma_subst_identity_pairs(pairs, m);
        },
        TyV::Enum(arms) => {
            lemma_subst_identity_arms(arms, m);
        },
        TyV::DotDotDot { drivers, body } => {
            lemma_subst_identity(*body, m);
            assert forall|i: int| 0 <= i < drivers.len() implies crate::subst::rename_names(
                m,
                drivers,
            )[i] == drivers[i] by {
                lemma_env_find_identity(m, drivers[i]);
            }
            assert(crate::subst::rename_names(m, drivers) =~= drivers);
            assert(TyV::DotDotDot { drivers, body: Box::new(*body) } == t);
        },
        _ => {},
    }
}

pub proof fn lemma_subst_identity_seq(s: Seq<TyV>, m: EnvV)
    requires
        identity_map(m),
    ensures
        crate::subst::subst_seq(s, m) == s,
    decreases size_seq(s), 1nat,
{
    if s.len() == 0 {
        assert(s =~= Seq::<TyV>::empty());
    } else {
        lemma_size_seq_elem(s, 0);
        lemma_subst_identity(s[0], m);
        lemma_subst_identity_seq(s.subrange(1, s.len() as int), m);
        assert(seq![s[0]] + s.subrange(1, s.len() as int) =~= s);
    }
}

pub proof fn lemma_subst_identity_pairs(s: Seq<(NameV, TyV)>, m: EnvV)
    requires
        identity_map(m),
    ensures
        crate::subst::subst_pairs(s, m) == s,
    decreases size_pairs(s), 1nat,
{
    if s.len() == 0 {
        assert(s =~= Seq::<(NameV, TyV)>::empty());
    } else {
        lemma_size_pairs_elem(s, 0);
        lemma_subst_identity(s[0].1, m);
        lemma_subst_identity_pairs(s.subrange(1, s.len() as int), m);
        assert((s[0].0, s[0].1) == s[0]);
        assert(seq![s[0]] + s.subrange(1, s.len() as int) =~= s);
    }
}

pub proof fn lemma_subst_identity_arms(s: Seq<(NameV, Seq<TyV>)>, m: EnvV)
    requires
        identity_map(m),
    ensures
        crate::subst::subst_arms(s, m) == s,
    decreases size_arms(s), 2nat,
{
    if s.len() == 0 {
        assert(s =~= Seq::<(NameV, Seq<TyV>)>::empty());
    } else {
        lemma_size_arms_elem(s, 0);
        lemma_subst_identity_seq(s[0].1, m);
        lemma_subst_identity_arms(s.subrange(1, s.len() as int), m);
        assert((s[0].0, s[0].1) == s[0]);
        assert(seq![s[0]] + s.subrange(1, s.len() as int) =~= s);
    }
}

/// When the first pair in a component list with a given name is sought, and
/// no earlier component shares the name of component `i`, component `i` is
/// found.
pub proof fn lemma_find_first(pairs: Seq<(NameV, TyV)>, i: int)
    requires
        0 <= i < pairs.len(),
        forall|j: int| 0 <= j < i ==> pairs[j].0 != pairs[i].0,
    ensures
        crate::subtype::find_pair(pairs, pairs[i].0) == Some(pairs[i].1),
    decreases pairs.len(),
{
    if i > 0 {
        assert(pairs.subrange(1, pairs.len() as int)[i - 1] == pairs[i]);
        assert forall|j: int| 0 <= j < i - 1 implies #[trigger] pairs.subrange(
            1,
            pairs.len() as int,
        )[j].0 != pairs.subrange(1, pairs.len() as int)[i - 1].0 by {
            assert(pairs.subrange(1, pairs.len() as int)[j] == pairs[j + 1]);
        }
        lemma_find_first(pairs.subrange(1, pairs.len() as int), i - 1);
    }
}

/// Whether every protected name is mu-protected (bound to itself) in an
/// environment.
pub open spec fn all_protected(prot: Seq<NameV>, e: EnvV) -> bool {
    forall|n: NameV| #[trigger] prot.contains(n) ==> env_find(e, n) == Some(TyV::Var(n))
}

/// Protecting a binder's parameters preserves and extends protection.
pub proof fn lemma_all_protected_extend(prot: Seq<NameV>, ps: Seq<NameV>, e: EnvV)
    requires
        all_protected(prot, e),
    ensures
        all_protected(prot + ps, crate::canon::protect(e, ps)),
{
    assert forall|n: NameV| #[trigger] (prot + ps).contains(n) implies env_find(
        crate::canon::protect(e, ps),
        n,
    ) == Some(TyV::Var(n)) by {
        lemma_protect_find(e, ps, n);
        if !ps.contains(n) {
            let i = choose|i: int| 0 <= i < (prot + ps).len() && (prot + ps)[i] == n;
            assert(prot[i] == n);
            assert(prot.contains(n));
        }
    }
}

/// Reflexivity of subtyping: every reflexive-shaped type — structural
/// constructors, mu binders, and variable references to protected names — is
/// a subtype of itself, under any environments protecting those names and any
/// store, which the check leaves untouched, within a budget proportional to
/// the type's size.
pub proof fn lemma_subtype_reflexive_rec(
    t: TyV,
    prot: Seq<NameV>,
    e1: EnvV,
    e2: EnvV,
    st: UnifV,
    fuel: nat,
)
    requires
        refl_shape(t, prot),
        all_protected(prot, e1),
        all_protected(prot, e2),
        fuel >= 2 * size(t),
    ensures
        walk_neg(CloV { it: t, env: e1 }, CloV { it: t, env: e2 }, st, fuel) == (
            Ok::<(), TyErrV>(()),
            st,
        ),
    decreases size(t), 0nat,
{
    let sup = CloV { it: t, env: e1 };
    let sub = CloV { it: t, env: e2 };
    lemma_size_pos(t);
    assert(resolve_r(sup, st.entries, fuel) == Ok::<CloV, TyErrV>(sup));
    assert(resolve_r(sub, st.entries, fuel) == Ok::<CloV, TyErrV>(sub));
    assert(pre_match_s(sup, sub, st, fuel) == (
        Ok::<Option<(CloV, CloV)>, TyErrV>(Some((sup, sub))),
        st,
    ));
    let f2 = (fuel - 1) as nat;
    match t {
        TyV::Var(_) => {},
        TyV::Base(_) => {},
        TyV::Func { params, ret } => {
            lemma_size_pos(*ret);
            lemma_refl_rep(params, prot, e1, e2, st, f2);
            lemma_subtype_reflexive_rec(*ret, prot, e1, e2, st, f2);
        },
        TyV::Mu { params, body } => {
            let m = crate::resolve::mk_subst(params, crate::subtype::var_terms(params));
            lemma_mk_subst_identity(params);
            lemma_subst_identity(*body, m);
            lemma_all_protected_extend(prot, params, e1);
            lemma_all_protected_extend(prot, params, e2);
            lemma_subtype_reflexive_rec(
                *body,
                prot + params,
                crate::canon::protect(e1, params),
                crate::canon::protect(e2, params),
                st,
                f2,
            );
        },
        TyV::Tuple(comps) => {
            lemma_refl_rep(comps, prot, e1, e2, st, f2);
        },
        TyV::Struct(pairs) => {
            assert(pairs.subrange(0, pairs.len() as int) =~= pairs);
            lemma_refl_pairs(pairs, 0, prot, e1, e2, t, t, st, f2);
        },
        TyV::Enum(arms) => {
            assert(arms.subrange(0, arms.len() as int) =~= arms);
            lemma_refl_arms(arms, 0, prot, e1, e2, t, t, st, f2);
        },
        _ => {},
    }
}

/// Reflexivity of subtyping on structural types, under any environments.
pub proof fn lemma_subtype_reflexive(t: TyV, e1: EnvV, e2: EnvV, st: UnifV, fuel: nat)
    requires
        first_order(t),
        fuel >= 2 * size(t),
    ensures
        walk_neg(CloV { it: t, env: e1 }, CloV { it: t, env: e2 }, st, fuel) == (
            Ok::<(), TyErrV>(()),
            st,
        ),
{
    let prot = Seq::<NameV>::empty();
    lemma_fo_refl_shape(t, prot);
    assert forall|n: NameV| #[trigger] prot.contains(n) implies env_find(e1, n) == Some(
        TyV::Var(n),
    ) by {}
    assert forall|n: NameV| #[trigger] prot.contains(n) implies env_find(e2, n) == Some(
        TyV::Var(n),
    ) by {}
    lemma_subtype_reflexive_rec(t, prot, e1, e2, st, fuel);
}

/// Reflexivity for a repeated part: no reflexive-shaped term is a splice
/// pattern, so the comparison is pairwise.
pub proof fn lemma_refl_rep(
    s: Seq<TyV>,
    prot: Seq<NameV>,
    e1: EnvV,
    e2: EnvV,
    st: UnifV,
    fuel: nat,
)
    requires
        refl_shape_seq(s, prot),
        all_protected(prot, e1),
        all_protected(prot, e2),
        fuel >= 2 * size_seq(s) + 1,
    ensures
        crate::subtype::walk_rep(s, e1, s, e2, st, fuel) == (Ok::<(), TyErrV>(()), st),
    decreases size_seq(s), 2nat,
{
    if s.len() == 1 {
        lemma_refl_shape_seq_index(s, prot, 0);
        assert(!(s[0] is DotDotDot));
    }
    lemma_refl_zip(s, prot, e1, e2, st, fuel);
}

/// Reflexivity for pairwise comparison of a reflexive-shaped list against
/// itself.
pub proof fn lemma_refl_zip(
    s: Seq<TyV>,
    prot: Seq<NameV>,
    e1: EnvV,
    e2: EnvV,
    st: UnifV,
    fuel: nat,
)
    requires
        refl_shape_seq(s, prot),
        all_protected(prot, e1),
        all_protected(prot, e2),
        fuel >= 2 * size_seq(s) + 1,
    ensures
        crate::subtype::walk_zip(s, e1, s, e2, st, fuel) == (Ok::<(), TyErrV>(()), st),
    decreases size_seq(s), 1nat,
{
    if s.len() > 0 {
        lemma_size_seq_elem(s, 0);
        lemma_size_pos(s[0]);
        lemma_subtype_reflexive_rec(s[0], prot, e1, e2, st, (fuel - 1) as nat);
        lemma_refl_zip(s.subrange(1, s.len() as int), prot, e1, e2, st, fuel);
    }
}

/// Reflexivity for a struct against itself: from position `k` on, every
/// component's name finds that same component, since names are distinct.
pub proof fn lemma_refl_pairs(
    pairs: Seq<(NameV, TyV)>,
    k: int,
    prot: Seq<NameV>,
    e1: EnvV,
    e2: EnvV,
    w1: TyV,
    w2: TyV,
    st: UnifV,
    fuel: nat,
)
    requires
        distinct_keys(pairs),
        refl_shape_pairs(pairs, prot),
        all_protected(prot, e1),
        all_protected(prot, e2),
        0 <= k <= pairs.len(),
        fuel >= 2 * size_pairs(pairs) + 1,
    ensures
        crate::subtype::walk_pairs(
            pairs,
            e1,
            pairs.subrange(k, pairs.len() as int),
            e2,
            w1,
            w2,
            st,
            fuel,
        ) == (Ok::<(), TyErrV>(()), st),
    decreases size_pairs(pairs.subrange(k, pairs.len() as int)), 1nat,
{
    let suffix = pairs.subrange(k, pairs.len() as int);
    if k < pairs.len() {
        assert(suffix[0] == pairs[k]);
        lemma_find_first(pairs, k);
        lemma_refl_shape_pairs_index(pairs, prot, k);
        lemma_size_pairs_elem(pairs, k);
        lemma_size_pairs_elem(suffix, 0);
        lemma_size_pos(pairs[k].1);
        lemma_subtype_reflexive_rec(pairs[k].1, prot, e1, e2, st, (fuel - 1) as nat);
        assert(suffix.subrange(1, suffix.len() as int) =~= pairs.subrange(
            k + 1,
            pairs.len() as int,
        ));
        lemma_refl_pairs(pairs, k + 1, prot, e1, e2, w1, w2, st, fuel);
    }
}

/// Reflexivity for an enum against itself, arm by arm from position `k` on.
pub proof fn lemma_refl_arms(
    arms: Seq<(NameV, Seq<TyV>)>,
    k: int,
    prot: Seq<NameV>,
    e1: EnvV,
    e2: EnvV,
    w1: TyV,
    w2: TyV,
    st: UnifV,
    fuel: nat,
)
    requires
        refl_shape_arms(arms, prot),
        all_protected(prot, e1),
        all_protected(prot, e2),
        0 <= k <= arms.len(),
        fuel >= 2 * size_arms(arms) + 1,
    ensures
        crate::subtype::walk_arms(
            arms.subrange(k, arms.len() as int),
            e1,
            arms.subrange(k, arms.len() as int),
            e2,
            w1,
            w2,
            st,
            fuel,
        ) == (Ok::<(), TyErrV>(()), st),
    decreases size_arms(arms.subrange(k, arms.len() as int)), 2nat,
{
    let suffix = arms.subrange(k, arms.len() as int);
    if k < arms.len() {
        assert(suffix[0] == arms[k]);
        lemma_refl_shape_arms_index(arms, prot, k);
        lemma_size_arms_elem(arms, k);
        lemma_size_arms_elem(suffix, 0);
        lemma_refl_zip(arms[k].1, prot, e1, e2, st, (fuel - 1) as nat);
        assert(suffix.subrange(1, suffix.len() as int) =~= arms.subrange(
            k + 1,
            arms.len() as int,
        ));
        lemma_refl_arms(arms, k + 1, prot, e1, e2, w1, w2, st, fuel);
    }
}

/// Reflexivity at the entry point: a fresh-session check of a
/// reflexive-shaped type against itself — the walk `must_subtype` performs —
/// succeeds and records nothing, whenever the type fits the engine's
/// recursion budget and the environment protects the names the type leans on.
pub proof fn lemma_must_subtype_reflexive(t: TyV, prot: Seq<NameV>, env: EnvV)
    requires
        refl_shape(t, prot),
        all_protected(prot, env),
        2 * size(t) <= crate::resolve::DEPTH_LIMIT,
    ensures
        walk_neg(
            CloV { it: t, env },
            CloV { it: t, env },
            crate::subtype::session_start(t, t, env),
            crate::resolve::DEPTH_LIMIT as nat,
        ) == (Ok::<(), TyErrV>(()), crate::subtype::session_start(t, t, env)),
{
    lemma_subtype_reflexive_rec(
        t,
        prot,
        env,
        env,
        crate::subtype::session_start(t, t, env),
        crate::resolve::DEPTH_LIMIT as nat,
    );
}

/// Width and reordering subtyping for structs: a struct candidate fits a
/// struct expectation whenever every candidate component, looked up by name,
/// finds an identical structural component there — in whatever order, and
/// with the expectation free to carry components the candidate lacks.
pub proof fn lemma_struct_width(
    pairs_s: Seq<(NameV, TyV)>,
    pairs_b: Seq<(NameV, TyV)>,
    k: int,
    e1: EnvV,
    e2: EnvV,
    w1: TyV,
    w2: TyV,
    st: UnifV,
    fuel: nat,
)
    requires
        forall|i: int|
            0 <= i < pairs_b.len() ==> crate::subtype::find_pair(pairs_s, pairs_b[i].0)
                == Some(pairs_b[i].1),
        first_order_pairs(pairs_b),
        0 <= k <= pairs_b.len(),
        fuel >= 2 * size_pairs(pairs_b) + 1,
    ensures
        crate::subtype::walk_pairs(
            pairs_s,
            e1,
            pairs_b.subrange(k, pairs_b.len() as int),
            e2,
            w1,
            w2,
            st,
            fuel,
        ) == (Ok::<(), TyErrV>(()), st),
    decreases pairs_b.len() - k,
{
    let suffix = pairs_b.subrange(k, pairs_b.len() as int);
    if k < pairs_b.len() {
        assert(suffix[0] == pairs_b[k]);
        lemma_fo_pairs_index(pairs_b, k);
        lemma_size_pairs_elem(pairs_b, k);
        lemma_size_pos(pairs_b[k].1);
        lemma_subtype_reflexive(pairs_b[k].1, e1, e2, st, (fuel - 1) as nat);
        assert(suffix.subrange(1, suffix.len() as int) =~= pairs_b.subrange(
            k + 1,
            pairs_b.len() as int,
        ));
        lemma_struct_width(pairs_s, pairs_b, k + 1, e1, e2, w1, w2, st, fuel);
    }
}

/// Width and reordering subtyping, at the level of whole struct types.
pub proof fn lemma_subtype_struct_width(
    pairs_s: Seq<(NameV, TyV)>,
    pairs_b: Seq<(NameV, TyV)>,
    e1: EnvV,
    e2: EnvV,
    st: UnifV,
    fuel: nat,
)
    requires
        forall|i: int|
            0 <= i < pairs_b.len() ==> crate::subtype::find_pair(pairs_s, pairs_b[i].0)
                == Some(pairs_b[i].1),
        first_order_pairs(pairs_b),
        fuel >= 2 * size_pairs(pairs_b) + 2,
    ensures
        walk_neg(
            CloV { it: TyV::Struct(pairs_s), env: e1 },
            CloV { it: TyV::Struct(pairs_b), env: e2 },
            st,
            fuel,
        ) == (Ok::<(), TyErrV>(()), st),
{
    let sup = CloV { it: TyV::Struct(pairs_s), env: e1 };
    let sub = CloV { it: TyV::Struct(pairs_b), env: e2 };
    assert(resolve_r(sup, st.entries, fuel) == Ok::<CloV, TyErrV>(sup));
    assert(resolve_r(sub, st.entries, fuel) == Ok::<CloV, TyErrV>(sub));
    assert(pre_match_s(sup, sub, st, fuel) == (
        Ok::<Option<(CloV, CloV)>, TyErrV>(Some((sup, sub))),
        st,
    ));
    assert(pairs_b.subrange(0, pairs_b.len() as int) =~= pairs_b);
    lemma_struct_width(pairs_s, pairs_b, 0, e1, e2, sup.it, sub.it, st, (fuel - 1) as nat);
}

/// Canonicalization is idempotent on structural types: canonicalizing a
/// first canonicalization's result changes nothing, under any budgets.
pub proof fn lemma_canonicalize_idempotent_first_order(
    t: TyV,
    e: EnvV,
    st: Seq<(NameV, CloV)>,
    fuel: nat,
    fuel2: nat,
)
    requires
        first_order(t),
    ensures
        ({
            let once = canon(CloV { it: t, env: e }, st, fuel);
            once matches Ok(u) ==> canon(CloV { it: u, env: e }, st, fuel2) == once
        }),
{
    lemma_canon_fixed_first_order(t, e, st, fuel);
    lemma_canon_fixed_first_order(t, e, st, fuel2);
}

} // verus!

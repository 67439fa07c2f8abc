//! The subtype checker: the negative walk.
//!
//! The checker walks an expected type (`sup`) against a candidate type
//! (`sub`), consulting and mutating the unification store. Before every
//! structural comparison, a pre-match step resolves both sides: two
//! placeholders with the same name are definitionally equal; when exactly one
//! side resolves to a placeholder, a determination binding its name to the
//! other (already-resolved) closure is recorded and the pair succeeds; only
//! otherwise are the resolved closures compared by shape.
//!
//! Per constructor: a mu-protected variable on the expected side requires the
//! candidate to be a reference to the same protected name. A `forall` on the
//! expected side is instantiated with fresh placeholders (and a `forall`
//! candidate is stripped the same way). Two `mu` binders match by the Amber
//! rule: the candidate's binders are renamed to the expected side's and both
//! are protected while the bodies are walked. A struct candidate may have its
//! components reordered, and the expected struct may have extra ones (width
//! subtyping). A `dotdotdot` (splice) pattern standing alone in a repeated
//! position defers to the splicer, which forces underdetermined drivers to
//! become tuples of the discovered arity. Everything else matches literally,
//! component by component.
//!
//! Determinations are recorded in the order sub-terms are visited, and each
//! one stays visible to every later comparison in the same session. When a
//! check admits more than one valid determination for a placeholder, the
//! first one made wins; the engine does not backtrack. This order dependence
//! is accepted by design.

use vstd::prelude::*;

use crate::env::Clo;
use crate::env::CloV;
use crate::env::Env;
use crate::env::EnvV;
use crate::env::UnifStore;
use crate::env::UnifV;
use crate::env::env_find;
use crate::env::store_find;
use crate::names::Name;
use crate::names::NameV;
use crate::resolve::mk_subst;
use crate::resolve::resolve_r;
use crate::subst::subst;
use crate::terms::Ty;
use crate::terms::TyErr;
use crate::terms::TyErrV;
use crate::terms::TyV;
use crate::terms::arms_view;
use crate::terms::lemma_arms_view_index;
use crate::terms::lemma_arms_view_len;
use crate::terms::lemma_pairs_view_index;
use crate::terms::lemma_pairs_view_len;
use crate::terms::lemma_tys_view_index;
use crate::terms::lemma_tys_view_len;
use crate::terms::names_view;
use crate::terms::pairs_view;
use crate::terms::size;
use crate::terms::size_arms;
use crate::terms::size_pairs;
use crate::terms::size_seq;
use crate::terms::tys_view;

verus! {

/// The fresh-name counter after one more generated name.
pub open spec fn bump(n: nat) -> nat {
    if n < u64::MAX as nat {
        n + 1
    } else {
        n
    }
}

/// The diagnostic hint a name contributes to a placeholder generated for it.
pub open spec fn hint_of(n: NameV) -> Seq<char> {
    match n {
        NameV::Src(s) => s,
        NameV::Gen(_, h) => h,
    }
}

/// The terms referring to each of the given names.
pub open spec fn var_terms(ps: Seq<NameV>) -> Seq<TyV> {
    Seq::new(ps.len(), |i: int| TyV::Var(ps[i]))
}

/// An environment extended with a fresh placeholder for every parameter, as
/// when a `forall` is eliminated during a subtype walk.
pub open spec fn instantiate(env: EnvV, params: Seq<NameV>, st: UnifV) -> (EnvV, UnifV)
    decreases params.len(),
{
    if params.len() == 0 {
        (env, st)
    } else {
        let p = params[0];
        let u = TyV::Undet(NameV::Gen(st.next, hint_of(p)));
        let st2 = UnifV { entries: st.entries, next: bump(st.next) };
        instantiate(env.push((p, u)), params.subrange(1, params.len() as int), st2)
    }
}

/// The model of the pre-match step: resolve both sides against the store;
/// same-named placeholders are equal; a lone placeholder side is bound to the
/// other side; otherwise both resolved closures are handed back for
/// structural comparison.
pub open spec fn pre_match_s(sup: CloV, sub: CloV, st: UnifV, fuel: nat) -> (
    Result<Option<(CloV, CloV)>, TyErrV>,
    UnifV,
) {
    match resolve_r(sup, st.entries, fuel) {
        Err(e) => (Err(e), st),
        Ok(s) => match resolve_r(sub, st.entries, fuel) {
            Err(e) => (Err(e), st),
            Ok(b) => match (s.it, b.it) {
                (TyV::Undet(i), TyV::Undet(j)) => if i == j {
                    (Ok(None), st)
                } else {
                    (
                        Ok(None),
                        UnifV { entries: st.entries.push((j, s)), next: st.next },
                    )
                },
                (_, TyV::Undet(j)) => (
                    Ok(None),
                    UnifV { entries: st.entries.push((j, s)), next: st.next },
                ),
                (TyV::Undet(i), _) => (
                    Ok(None),
                    UnifV { entries: st.entries.push((i, b)), next: st.next },
                ),
                _ => (Ok(Some((s, b))), st),
            },
        },
    }
}

/// A tuple of `n` fresh underdetermined components, as the splicer forces an
/// underdetermined driver to be.
pub open spec fn fresh_components(n: nat, st: UnifV) -> (Seq<TyV>, UnifV)
    decreases n,
{
    if n == 0 {
        (Seq::empty(), st)
    } else {
        let u = TyV::Undet(NameV::Gen(st.next, "ddd_bit"@));
        let st2 = UnifV { entries: st.entries, next: bump(st.next) };
        let (rest, st3) = fresh_components((n - 1) as nat, st2);
        (seq![u] + rest, st3)
    }
}

/// Forcing an underdetermined driver makes exactly one component per
/// context position.
pub proof fn lemma_fresh_components_len(n: nat, st: UnifV)
    ensures
        fresh_components(n, st).0.len() == n,
    decreases n,
{
    if n > 0 {
        let st2 = UnifV { entries: st.entries, next: bump(st.next) };
        lemma_fresh_components_len((n - 1) as nat, st2);
    }
}

/// Each driver resolved against the store, in order. All drivers are
/// resolved against one snapshot, before any forcing mutates the store.
pub open spec fn resolve_drivers(
    ds: Seq<NameV>,
    env: EnvV,
    st: UnifV,
    fuel: nat,
) -> Result<Seq<TyV>, TyErrV>
    decreases ds.len(),
{
    if ds.len() == 0 {
        Ok(Seq::empty())
    } else {
        match resolve_r(CloV { it: TyV::Var(ds[0]), env }, st.entries, fuel) {
            Err(e) => Err(e),
            Ok(rc) => match resolve_drivers(
                ds.subrange(1, ds.len() as int),
                env,
                st,
                fuel,
            ) {
                Err(e) => Err(e),
                Ok(rest) => Ok(seq![rc.it] + rest),
            },
        }
    }
}

/// Per-position environments after assigning one driver's components: the
/// i-th environment gains a binding of the driver name to the i-th component.
pub open spec fn assign_driver(envs: Seq<EnvV>, d: NameV, comps: Seq<TyV>) -> Seq<EnvV> {
    Seq::new(envs.len(), |i: int| envs[i].push((d, comps[i])))
}

/// Process the resolved drivers in order: a driver that is a tuple of the
/// expected length hands out its components per position; an underdetermined
/// driver is forced, by a store determination, to be a tuple of fresh
/// placeholders; anything else cannot be destructured as a tuple.
pub open spec fn force_drivers(
    ds: Seq<NameV>,
    resolved: Seq<TyV>,
    n: nat,
    env: EnvV,
    envs: Seq<EnvV>,
    st: UnifV,
) -> (Result<Seq<EnvV>, TyErrV>, UnifV)
    decreases ds.len(),
{
    if ds.len() == 0 || resolved.len() == 0 {
        (Ok(envs), st)
    } else {
        let d = ds[0];
        let rest_ds = ds.subrange(1, ds.len() as int);
        let rest_rs = resolved.subrange(1, resolved.len() as int);
        match resolved[0] {
            TyV::Tuple(comps) => if comps.len() != n {
                (Err(TyErrV::LengthMismatch(comps, n)), st)
            } else {
                force_drivers(rest_ds, rest_rs, n, env, assign_driver(envs, d, comps), st)
            },
            TyV::Undet(id) => {
                let (comps, st2) = fresh_components(n, st);
                let st3 = UnifV {
                    entries: st2.entries.push((id, CloV { it: TyV::Tuple(comps), env })),
                    next: st2.next,
                };
                force_drivers(rest_ds, rest_rs, n, env, assign_driver(envs, d, comps), st3)
            },
            _ => (Err(TyErrV::UnableToDestructure(resolved[0], NameV::Src("tuple"@))), st),
        }
    }
}

/// The model of the splicer. `Ok(None)` means "no splice": the single context
/// element is itself a splice pattern, so ordinary comparison proceeds. A
/// splice nested directly inside that element's body is unsupported and ends
/// the check. Otherwise every driver is resolved and forced to provide one
/// value per context position, and the per-position environments come back.
pub open spec fn splice_s(
    ds: Seq<NameV>,
    env: EnvV,
    elts: Seq<TyV>,
    st: UnifV,
    fuel: nat,
) -> (Result<Option<Seq<EnvV>>, TyErrV>, UnifV) {
    if elts.len() == 1 && elts[0] is DotDotDot {
        if (*elts[0]->DotDotDot_body) is DotDotDot {
            (Err(TyErrV::NestedSplice), st)
        } else {
            (Ok(None), st)
        }
    } else {
        match resolve_drivers(ds, env, st, fuel) {
            Err(e) => (Err(e), st),
            Ok(resolved) => {
                let empties = Seq::new(elts.len(), |i: int| Seq::<(NameV, TyV)>::empty());
                match force_drivers(ds, resolved, elts.len(), env, empties, st) {
                    (Err(e), st2) => (Err(e), st2),
                    (Ok(envs), st2) => (Ok(Some(envs)), st2),
                }
            },
        }
    }
}

/// Find a struct component by name: the first component whose name matches.
pub open spec fn find_pair(pairs: Seq<(NameV, TyV)>, n: NameV) -> Option<TyV>
    decreases pairs.len(),
{
    if pairs.len() == 0 {
        None
    } else if pairs[0].0 == n {
        Some(pairs[0].1)
    } else {
        find_pair(pairs.subrange(1, pairs.len() as int), n)
    }
}

/// The model of the negative walk: does the candidate closure fit where the
/// expected closure is required? On success the result is `Ok`, and the
/// returned store carries every determination recorded along the way.
pub open spec fn walk_neg(sup: CloV, sub: CloV, st: UnifV, fuel: nat) -> (
    Result<(), TyErrV>,
    UnifV,
)
    decreases fuel, 0nat, 0nat,
{
    if fuel == 0 {
        (Err(TyErrV::DepthExceeded), st)
    } else {
        let f2 = (fuel - 1) as nat;
        match pre_match_s(sup, sub, st, fuel) {
            (Err(e), st1) => (Err(e), st1),
            (Ok(None), st1) => (Ok(()), st1),
            (Ok(Some((s, b))), st1) => match s.it {
                TyV::Var(n) => if b.it == TyV::Var(n) {
                    (Ok(()), st1)
                } else if env_find(s.env, n) is None {
                    (Err(TyErrV::UnboundName(n)), st1)
                } else {
                    (Err(TyErrV::Mismatch(b.it, s.it)), st1)
                },
                TyV::Base(n) => if b.it == TyV::Base(n) {
                    (Ok(()), st1)
                } else {
                    (Err(TyErrV::Mismatch(b.it, s.it)), st1)
                },
                TyV::Func { params: ps, ret: rs } => match b.it {
                    TyV::Func { params: pb, ret: rb } => match walk_rep(
                        ps,
                        s.env,
                        pb,
                        b.env,
                        st1,
                        f2,
                    ) {
                        (Err(e), st2) => (Err(e), st2),
                        (Ok(u), st2) => walk_neg(
                            CloV { it: *rs, env: s.env },
                            CloV { it: *rb, env: b.env },
                            st2,
                            f2,
                        ),
                    },
                    _ => (Err(TyErrV::Mismatch(b.it, s.it)), st1),
                },
                TyV::Forall { params, body } => {
                    let (env_s, st2) = instantiate(s.env, params, st1);
                    match b.it {
                        TyV::Forall { params: pb, body: bb } => {
                            let (env_b, st3) = instantiate(b.env, pb, st2);
                            walk_neg(
                                CloV { it: *body, env: env_s },
                                CloV { it: *bb, env: env_b },
                                st3,
                                f2,
                            )
                        },
                        _ => walk_neg(CloV { it: *body, env: env_s }, b, st2, f2),
                    }
                },
                TyV::Mu { params: ps, body: bs } => match b.it {
                    TyV::Mu { params: pb, body: bb } => if ps.len() != pb.len() {
                        (Err(TyErrV::Mismatch(b.it, s.it)), st1)
                    } else {
                        let renamed = subst(*bb, mk_subst(pb, var_terms(ps)));
                        walk_neg(
                            CloV { it: *bs, env: crate::canon::protect(s.env, ps) },
                            CloV { it: renamed, env: crate::canon::protect(b.env, ps) },
                            st1,
                            f2,
                        )
                    },
                    _ => (Err(TyErrV::Mismatch(b.it, s.it)), st1),
                },
                TyV::Apply { rator: rs, args: args_s } => match b.it {
                    TyV::Apply { rator: rb, args: args_b } => match walk_neg(
                        CloV { it: *rs, env: s.env },
                        CloV { it: *rb, env: b.env },
                        st1,
                        f2,
                    ) {
                        (Err(e), st2) => (Err(e), st2),
                        (Ok(u), st2) => walk_rep(args_s, s.env, args_b, b.env, st2, f2),
                    },
                    _ => (Err(TyErrV::Mismatch(b.it, s.it)), st1),
                },
                TyV::Tuple(cs) => match b.it {
                    TyV::Tuple(cb) => walk_rep(cs, s.env, cb, b.env, st1, f2),
                    _ => (Err(TyErrV::Mismatch(b.it, s.it)), st1),
                },
                TyV::Struct(pairs_s) => match b.it {
                    TyV::Struct(pairs_b) => walk_pairs(
                        pairs_s,
                        s.env,
                        pairs_b,
                        b.env,
                        s.it,
                        b.it,
                        st1,
                        f2,
                    ),
                    _ => (Err(TyErrV::Mismatch(b.it, s.it)), st1),
                },
                TyV::Enum(arms_s) => match b.it {
                    TyV::Enum(arms_b) => walk_arms(
                        arms_s,
                        s.env,
                        arms_b,
                        b.env,
                        s.it,
                        b.it,
                        st1,
                        f2,
                    ),
                    _ => (Err(TyErrV::Mismatch(b.it, s.it)), st1),
                },
                TyV::DotDotDot { drivers: ds, body: body_s } => match b.it {
                    TyV::DotDotDot { drivers: db, body: body_b } => match walk_zip(
                        var_terms(ds),
                        s.env,
                        var_terms(db),
                        b.env,
                        st1,
                        f2,
                    ) {
                        (Err(e), st2) => (Err(e), st2),
                        (Ok(u), st2) => walk_neg(
                            CloV { it: *body_s, env: s.env },
                            CloV { it: *body_b, env: b.env },
                            st2,
                            f2,
                        ),
                    },
                    _ => (Err(TyErrV::Mismatch(b.it, s.it)), st1),
                },
                // Unreachable: the pre-match step never hands back a
                // placeholder on the expected side.
                TyV::Undet(_) => (Err(TyErrV::Mismatch(b.it, s.it)), st1),
            },
        }
    }
}

/// Walk a repeated part: a splice pattern standing alone defers to the
/// splicer and, per position, re-walks its body under the per-position
/// environment; otherwise the lists are compared pairwise.
pub open spec fn walk_rep(
    sups: Seq<TyV>,
    sup_env: EnvV,
    subs: Seq<TyV>,
    sub_env: EnvV,
    st: UnifV,
    fuel: nat,
) -> (Result<(), TyErrV>, UnifV)
    decreases fuel, sups.len(), 1nat,
{
    if sups.len() == 1 && sups[0] is DotDotDot {
        let ds = sups[0]->DotDotDot_drivers;
        let body = sups[0]->DotDotDot_body;
        match splice_s(ds, sup_env, subs, st, fuel) {
            (Err(e), st2) => (Err(e), st2),
            (Ok(None), st2) => walk_zip(sups, sup_env, subs, sub_env, st2, fuel),
            (Ok(Some(envs)), st2) => if fuel == 0 {
                (Err(TyErrV::DepthExceeded), st2)
            } else {
                walk_positions(
                    *body,
                    sup_env,
                    envs,
                    subs,
                    sub_env,
                    st2,
                    (fuel - 1) as nat,
                )
            },
        }
    } else {
        walk_zip(sups, sup_env, subs, sub_env, st, fuel)
    }
}

/// Walk two lists pairwise; their lengths must agree.
pub open spec fn walk_zip(
    sups: Seq<TyV>,
    sup_env: EnvV,
    subs: Seq<TyV>,
    sub_env: EnvV,
    st: UnifV,
    fuel: nat,
) -> (Result<(), TyErrV>, UnifV)
    decreases fuel, sups.len(), 0nat,
{
    if sups.len() != subs.len() {
        (Err(TyErrV::LengthMismatch(subs, sups.len())), st)
    } else if sups.len() == 0 {
        (Ok(()), st)
    } else if fuel == 0 {
        (Err(TyErrV::DepthExceeded), st)
    } else {
        match walk_neg(
            CloV { it: sups[0], env: sup_env },
            CloV { it: subs[0], env: sub_env },
            st,
            (fuel - 1) as nat,
        ) {
            (Err(e), st2) => (Err(e), st2),
            (Ok(u), st2) => walk_zip(
                sups.subrange(1, sups.len() as int),
                sup_env,
                subs.subrange(1, subs.len() as int),
                sub_env,
                st2,
                fuel,
            ),
        }
    }
}

/// Walk a splice body once per context position, each time under the ambient
/// environment extended with that position's driver bindings.
pub open spec fn walk_positions(
    body: TyV,
    sup_env: EnvV,
    envs: Seq<EnvV>,
    subs: Seq<TyV>,
    sub_env: EnvV,
    st: UnifV,
    fuel: nat,
) -> (Result<(), TyErrV>, UnifV)
    decreases fuel, subs.len(), 0nat,
{
    if subs.len() == 0 || envs.len() == 0 {
        (Ok(()), st)
    } else if fuel == 0 {
        (Err(TyErrV::DepthExceeded), st)
    } else {
        match walk_neg(
            CloV { it: body, env: sup_env + envs[0] },
            CloV { it: subs[0], env: sub_env },
            st,
            (fuel - 1) as nat,
        ) {
            (Err(e), st2) => (Err(e), st2),
            (Ok(u), st2) => walk_positions(
                body,
                sup_env,
                envs.subrange(1, envs.len() as int),
                subs.subrange(1, subs.len() as int),
                sub_env,
                st2,
                fuel,
            ),
        }
    }
}

/// Walk a struct pair: every component of the candidate must appear, by
/// name, in the expected struct, and fit the component found there. The
/// expected struct may have components the candidate lacks.
pub open spec fn walk_pairs(
    pairs_s: Seq<(NameV, TyV)>,
    sup_env: EnvV,
    pairs_b: Seq<(NameV, TyV)>,
    sub_env: EnvV,
    whole_s: TyV,
    whole_b: TyV,
    st: UnifV,
    fuel: nat,
) -> (Result<(), TyErrV>, UnifV)
    decreases fuel, pairs_b.len(), 0nat,
{
    if pairs_b.len() == 0 {
        (Ok(()), st)
    } else if fuel == 0 {
        (Err(TyErrV::DepthExceeded), st)
    } else {
        match find_pair(pairs_s, pairs_b[0].0) {
            None => (Err(TyErrV::Mismatch(whole_b, whole_s)), st),
            Some(sc) => match walk_neg(
                CloV { it: sc, env: sup_env },
                CloV { it: pairs_b[0].1, env: sub_env },
                st,
                (fuel - 1) as nat,
            ) {
                (Err(e), st2) => (Err(e), st2),
                (Ok(u), st2) => walk_pairs(
                    pairs_s,
                    sup_env,
                    pairs_b.subrange(1, pairs_b.len() as int),
                    sub_env,
                    whole_s,
                    whole_b,
                    st2,
                    fuel,
                ),
            },
        }
    }
}

/// The model of a list of environments.
pub open spec fn envs_view(v: Seq<Env>) -> Seq<EnvV> {
    Seq::new(v.len(), |i: int| v[i]@)
}

/// The diagnostic hint of a name, as a string.
fn hint_str(n: &Name) -> (r: String)
    ensures
        r@ == hint_of(n@),
{
    match n {
        Name::Src(s) => s.clone(),
        Name::Gen(_, h) => h.clone(),
    }
}

/// The environment extended with a fresh placeholder for every parameter.
fn instantiate_env(env: &Env, params: &Vec<Name>, st: &mut UnifStore) -> (r: Env)
    ensures
        ({
            let (ev, stv) = instantiate(env@, names_view(params@), old(st)@);
            r@ == ev && final(st)@ == stv
        }),
{
    let ghost goal = instantiate(env@, names_view(params@), old(st)@);
    let mut cur = env.dup();
    let mut i: usize = 0;
    proof {
        assert(names_view(params@).subrange(0, params@.len() as int) =~= names_view(params@));
    }
    while i < params.len()
        invariant
            i <= params.len(),
            instantiate(
                cur@,
                names_view(params@).subrange(i as int, params@.len() as int),
                st@,
            ) == goal,
        decreases params.len() - i,
    {
        let ghost ps = names_view(params@).subrange(i as int, params@.len() as int);
        proof {
            assert(ps[0] == params@[i as int]@);
            assert(ps.subrange(1, ps.len() as int) =~= names_view(params@).subrange(
                i + 1,
                params@.len() as int,
            ));
        }
        let hint = hint_str(&params[i]);
        let u = st.underspecified(hint.as_str());
        cur = cur.set(params[i].dup(), u);
        i = i + 1;
    }
    proof {
        assert(names_view(params@).subrange(
            params@.len() as int,
            params@.len() as int,
        ) =~= Seq::<NameV>::empty());
    }
    cur
}

/// The pre-match step: resolve both sides; handle placeholder pairs by
/// recording a determination or recognizing definitional equality; hand
/// anything else back, resolved, for structural comparison.
fn pre_match(sup: Clo, sub: Clo, st: &mut UnifStore, fuel: u64) -> (r: Result<
    Option<(Clo, Clo)>,
    TyErr,
>)
    ensures
        ({
            let (s, stv) = pre_match_s(sup@, sub@, old(st)@, fuel as nat);
            final(st)@ == stv && match r {
                Ok(None) => s == Ok::<Option<(CloV, CloV)>, TyErrV>(None),
                Ok(Some(p)) => s == Ok::<Option<(CloV, CloV)>, TyErrV>(Some((p.0@, p.1@))),
                Err(e) => s == Err::<Option<(CloV, CloV)>, TyErrV>(e@),
            }
        }),
{
    let rs = crate::resolve::resolve_go(sup, &*st, fuel);
    match rs {
        Err(e) => Err(e),
        Ok(s) => {
            let rb = crate::resolve::resolve_go(sub, &*st, fuel);
            match rb {
                Err(e) => Err(e),
                Ok(b) => {
                    let s_undet = match &s.it {
                        Ty::Undet(_) => true,
                        _ => false,
                    };
                    let b_undet = match &b.it {
                        Ty::Undet(_) => true,
                        _ => false,
                    };
                    if s_undet && b_undet {
                        let same_id = match (&s.it, &b.it) {
                            (Ty::Undet(i), Ty::Undet(j)) => i.same(j),
                            _ => false,
                        };
                        if same_id {
                            Ok(None)
                        } else {
                            let j = match &b.it {
                                Ty::Undet(j) => j.dup(),
                                _ => Name::Src(String::new()),
                            };
                            st.bind(j, s);
                            Ok(None)
                        }
                    } else if b_undet {
                        let j = match &b.it {
                            Ty::Undet(j) => j.dup(),
                            _ => Name::Src(String::new()),
                        };
                        st.bind(j, s);
                        Ok(None)
                    } else if s_undet {
                        let i = match &s.it {
                            Ty::Undet(i) => i.dup(),
                            _ => Name::Src(String::new()),
                        };
                        st.bind(i, b);
                        Ok(None)
                    } else {
                        Ok(Some((s, b)))
                    }
                },
            }
        },
    }
}

/// A copy of the tail of a term list, from position `i` on.
fn dup_range(v: &Vec<Ty>, i: usize) -> (r: Vec<Ty>)
    requires
        i <= v@.len(),
    ensures
        tys_view(r@) == tys_view(v@).subrange(i as int, v@.len() as int),
{
    let mut r: Vec<Ty> = Vec::new();
    let mut k: usize = i;
    while k < v.len()
        invariant
            i <= k <= v@.len(),
            r@.len() == k - i,
            forall|j: int| 0 <= j < r@.len() ==> r@[j]@ == v@[i + j]@,
        decreases v.len() - k,
    {
        r.push(v[k].dup());
        k = k + 1;
    }
    proof {
        lemma_tys_view_len(r@);
        lemma_tys_view_len(v@);
        assert forall|j: int| 0 <= j < r@.len() implies tys_view(r@)[j] == tys_view(v@).subrange(
            i as int,
            v@.len() as int,
        )[j] by {
            lemma_tys_view_index(r@, j);
            lemma_tys_view_index(v@, i + j);
        }
        assert(tys_view(r@) =~= tys_view(v@).subrange(i as int, v@.len() as int));
    }
    r
}

/// A tuple's worth of fresh underdetermined components.
fn fresh_comps_x(n: usize, st: &mut UnifStore) -> (r: Vec<Ty>)
    ensures
        ({
            let (cs, stv) = fresh_components(n as nat, old(st)@);
            tys_view(r@) == cs && final(st)@ == stv
        }),
{
    let ghost goal = fresh_components(n as nat, old(st)@);
    let mut out: Vec<Ty> = Vec::new();
    let mut i: usize = 0;
    proof {
        lemma_tys_view_len(out@);
        assert(tys_view(out@) =~= Seq::<TyV>::empty());
    }
    while i < n
        invariant
            i <= n,
            ({
                let (cs, stv) = fresh_components((n - i) as nat, st@);
                tys_view(out@) + cs == goal.0 && stv == goal.1
            }),
        decreases n - i,
    {
        let ghost before = out@;
        let u = st.underspecified("ddd_bit");
        out.push(u);
        i = i + 1;
        proof {
            lemma_tys_view_len(before);
            lemma_tys_view_len(out@);
            assert forall|j: int| 0 <= j < out@.len() implies #[trigger] tys_view(out@)[j] == (
            tys_view(before).push(out@[out@.len() - 1]@))[j] by {
                lemma_tys_view_index(out@, j);
                if j < out@.len() - 1 {
                    lemma_tys_view_index(before, j);
                }
            }
            assert(tys_view(out@) =~= tys_view(before).push(out@[out@.len() - 1]@));
            let (cs, stv) = fresh_components((n - i) as nat, st@);
            assert(tys_view(out@) + cs =~= goal.0);
        }
    }
    proof {
        let (cs, stv) = fresh_components(0nat, st@);
        assert(cs =~= Seq::<TyV>::empty());
        assert(tys_view(out@) + cs =~= tys_view(out@));
    }
    out
}

/// Resolve each driver of `ds` from position `i` on against the store.
fn resolve_drivers_x(
    ds: &Vec<Name>,
    i: usize,
    env: &Env,
    st: &UnifStore,
    fuel: u64,
) -> (r: Result<Vec<Ty>, TyErr>)
    requires
        i <= ds@.len(),
    ensures
        ({
            let s = resolve_drivers(
                names_view(ds@).subrange(i as int, ds@.len() as int),
                env@,
                st@,
                fuel as nat,
            );
            match r {
                Ok(out) => s == Ok::<Seq<TyV>, TyErrV>(tys_view(out@)),
                Err(e) => s == Err::<Seq<TyV>, TyErrV>(e@),
            }
        }),
    decreases ds@.len() - i,
{
    let ghost suffix = names_view(ds@).subrange(i as int, ds@.len() as int);
    if i == ds.len() {
        let out: Vec<Ty> = Vec::new();
        proof {
            assert(tys_view(out@) =~= Seq::<TyV>::empty());
            assert(suffix =~= Seq::<NameV>::empty());
        }
        Ok(out)
    } else {
        proof {
            assert(suffix[0] == ds@[i as int]@);
            assert(suffix.subrange(1, suffix.len() as int) =~= names_view(ds@).subrange(
                i + 1,
                ds@.len() as int,
            ));
        }
        let dvar = Ty::Var(ds[i].dup());
        let rr = crate::resolve::resolve_go(Clo { it: dvar, env: env.dup() }, st, fuel);
        match rr {
            Err(e) => Err(e),
            Ok(rc) => {
                let rest = resolve_drivers_x(ds, i + 1, env, st, fuel);
                match rest {
                    Err(e) => Err(e),
                    Ok(mut out) => {
                        let ghost out_before = out@;
                        out.insert(0, rc.it);
                        proof {
                            lemma_tys_view_len(out_before);
                            lemma_tys_view_len(out@);
                            assert forall|j: int| 0 <= j < out@.len() implies #[trigger] tys_view(
                                out@,
                            )[j] == (seq![out@[0]@] + tys_view(out_before))[j] by {
                                lemma_tys_view_index(out@, j);
                                if j > 0 {
                                    lemma_tys_view_index(out_before, j - 1);
                                }
                            }
                            assert(tys_view(out@) =~= seq![out@[0]@] + tys_view(out_before));
                        }
                        Ok(out)
                    },
                }
            },
        }
    }
}

/// Per-position environments, each extended with one driver binding.
fn assign_x(envs: &Vec<Env>, d: &Name, comps: &Vec<Ty>) -> (r: Vec<Env>)
    requires
        envs@.len() <= comps@.len(),
    ensures
        envs_view(r@) == assign_driver(envs_view(envs@), d@, tys_view(comps@)),
{
    let mut r: Vec<Env> = Vec::new();
    let mut i: usize = 0;
    while i < envs.len()
        invariant
            i <= envs@.len(),
            envs@.len() <= comps@.len(),
            r@.len() == i,
            forall|j: int| 0 <= j < i ==> r@[j]@ == envs@[j]@.push((d@, comps@[j]@)),
        decreases envs.len() - i,
    {
        r.push(envs[i].set(d.dup(), comps[i].dup()));
        i = i + 1;
    }
    proof {
        lemma_tys_view_len(comps@);
        assert forall|j: int| 0 <= j < r@.len() implies envs_view(r@)[j] == assign_driver(
            envs_view(envs@),
            d@,
            tys_view(comps@),
        )[j] by {
            lemma_tys_view_index(comps@, j);
        }
        assert(envs_view(r@) =~= assign_driver(envs_view(envs@), d@, tys_view(comps@)));
    }
    r
}

/// Force each resolved driver, from position `k` on, to provide one value
/// per context position.
fn force_drivers_x(
    ds: &Vec<Name>,
    resolved: &Vec<Ty>,
    k: usize,
    n: usize,
    env: &Env,
    envs: Vec<Env>,
    st: &mut UnifStore,
) -> (r: Result<Vec<Env>, TyErr>)
    requires
        k <= ds@.len(),
        k <= resolved@.len(),
        envs@.len() <= n as int,
    ensures
        ({
            let (s, stv) = force_drivers(
                names_view(ds@).subrange(k as int, ds@.len() as int),
                tys_view(resolved@).subrange(k as int, resolved@.len() as int),
                n as nat,
                env@,
                envs_view(envs@),
                old(st)@,
            );
            final(st)@ == stv && match r {
                Ok(out) => s == Ok::<Seq<EnvV>, TyErrV>(envs_view(out@)),
                Err(e) => s == Err::<Seq<EnvV>, TyErrV>(e@),
            }
        }),
    decreases ds@.len() - k,
{
    proof {
        lemma_tys_view_len(resolved@);
    }
    let ghost ds_suffix = names_view(ds@).subrange(k as int, ds@.len() as int);
    let ghost rs_suffix = tys_view(resolved@).subrange(k as int, resolved@.len() as int);
    if k == ds.len() || k == resolved.len() {
        Ok(envs)
    } else {
        proof {
            lemma_tys_view_index(resolved@, k as int);
            assert(ds_suffix[0] == ds@[k as int]@);
            assert(rs_suffix[0] == resolved@[k as int]@);
            assert(ds_suffix.subrange(1, ds_suffix.len() as int) =~= names_view(ds@).subrange(
                k + 1,
                ds@.len() as int,
            ));
            assert(rs_suffix.subrange(1, rs_suffix.len() as int) =~= tys_view(
                resolved@,
            ).subrange(k + 1, resolved@.len() as int));
        }
        match &resolved[k] {
            Ty::Tuple(comps) => {
                proof {
                    lemma_tys_view_len(comps@);
                }
                if comps.len() != n {
                    Err(TyErr::LengthMismatch(crate::terms::dup_tys(comps), n))
                } else {
                    let envs2 = assign_x(&envs, &ds[k], comps);
                    proof {
                        assert(envs_view(envs2@).len() == envs_view(envs@).len());
                        assert(envs2@.len() == envs@.len());
                    }
                    force_drivers_x(ds, resolved, k + 1, n, env, envs2, st)
                }
            },
            Ty::Undet(id) => {
                proof {
                    lemma_fresh_components_len(n as nat, st@);
                }
                let comps = fresh_comps_x(n, st);
                let comps2 = crate::terms::dup_tys(&comps);
                proof {
                    lemma_tys_view_len(comps@);
                    lemma_tys_view_len(comps2@);
                }
                st.bind(id.dup(), Clo { it: Ty::Tuple(comps), env: env.dup() });
                let envs2 = assign_x(&envs, &ds[k], &comps2);
                proof {
                    assert(envs_view(envs2@).len() == envs_view(envs@).len());
                    assert(envs2@.len() == envs@.len());
                }
                force_drivers_x(ds, resolved, k + 1, n, env, envs2, st)
            },
            _ => Err(TyErr::UnableToDestructure(resolved[k].dup(), Name::src("tuple"))),
        }
    }
}

/// Whether a term is a splice (`dotdotdot`) pattern.
fn is_ddd(t: &Ty) -> (r: bool)
    ensures
        r == (t@ is DotDotDot),
{
    match t {
        Ty::DotDotDot { .. } => true,
        _ => false,
    }
}

/// The splicer, with an explicit budget.
fn splice_x(
    drivers: &Vec<Name>,
    env: &Env,
    elts: &Vec<Ty>,
    st: &mut UnifStore,
    fuel: u64,
) -> (r: Result<Option<Vec<Env>>, TyErr>)
    ensures
        ({
            let (s, stv) = splice_s(
                names_view(drivers@),
                env@,
                tys_view(elts@),
                old(st)@,
                fuel as nat,
            );
            final(st)@ == stv && match r {
                Ok(None) => s == Ok::<Option<Seq<EnvV>>, TyErrV>(None),
                Ok(Some(envs)) => s == Ok::<Option<Seq<EnvV>>, TyErrV>(Some(envs_view(envs@))),
                Err(e) => s == Err::<Option<Seq<EnvV>>, TyErrV>(e@),
            }
        }),
{
    proof {
        lemma_tys_view_len(elts@);
        if elts@.len() > 0 {
            lemma_tys_view_index(elts@, 0);
        }
        assert(names_view(drivers@).subrange(0, drivers@.len() as int) =~= names_view(drivers@));
        assert(tys_view(elts@).subrange(0, elts@.len() as int) =~= tys_view(elts@));
    }
    if elts.len() == 1 {
        let first_is_splice = is_ddd(&elts[0]);
        if first_is_splice {
            let nested = match &elts[0] {
                Ty::DotDotDot { body, .. } => is_ddd(&**body),
                _ => false,
            };
            proof {
                assert(tys_view(elts@)[0] == elts@[0 as int]@);
            }
            if nested {
                return Err(TyErr::NestedSplice);
            } else {
                return Ok(None);
            }
        }
    }
    let rd = resolve_drivers_x(drivers, 0, env, &*st, fuel);
    match rd {
        Err(e) => Err(e),
        Ok(resolved) => {
            let mut empties: Vec<Env> = Vec::new();
            let mut i: usize = 0;
            while i < elts.len()
                invariant
                    i <= elts@.len(),
                    empties@.len() == i,
                    forall|j: int|
                        0 <= j < i ==> empties@[j]@ == Seq::<(NameV, TyV)>::empty(),
                decreases elts.len() - i,
            {
                empties.push(Env::new());
                i = i + 1;
            }
            proof {
                lemma_tys_view_len(elts@);
                assert(envs_view(empties@) =~= Seq::new(
                    tys_view(elts@).len(),
                    |j: int| Seq::<(NameV, TyV)>::empty(),
                ));
            }
            proof {
                lemma_tys_view_len(resolved@);
                assert(tys_view(resolved@).subrange(0, resolved@.len() as int) =~= tys_view(
                    resolved@,
                ));
            }
            let fd = force_drivers_x(drivers, &resolved, 0, elts.len(), env, empties, st);
            match fd {
                Err(e) => Err(e),
                Ok(envs) => Ok(Some(envs)),
            }
        },
    }
}

/// Resolve each variadic driver against the unification store and determine,
/// per context position, an environment binding every driver name to its
/// position-specific value, together with the (unexpanded) body to re-walk
/// once per position. `Ok(None)` means the single context element is itself a
/// splice pattern: no splice boundary, ordinary comparison applies. A driver
/// that resolves to a tuple of the wrong length is a `LengthMismatch`; one
/// that resolves to any other concrete shape is an `UnableToDestructure`; a
/// splice nested directly inside the context element's body is unsupported
/// and ends the check. An underdetermined driver is forced, by a recorded
/// determination, to be a tuple of fresh placeholders.
pub fn splice_ddd(
    drivers: &Vec<Name>,
    body: &Ty,
    env: &Env,
    context_elts: &Vec<Ty>,
    unif: &mut UnifStore,
) -> (r: Result<Option<(Vec<Env>, Ty)>, TyErr>)
    ensures
        ({
            let (s, stv) = splice_s(
                names_view(drivers@),
                env@,
                tys_view(context_elts@),
                old(unif)@,
                crate::resolve::DEPTH_LIMIT as nat,
            );
            final(unif)@ == stv && match r {
                Ok(None) => s == Ok::<Option<Seq<EnvV>>, TyErrV>(None),
                Ok(Some(p)) => s == Ok::<Option<Seq<EnvV>>, TyErrV>(Some(envs_view(p.0@)))
                    && p.1@ == body@,
                Err(e) => s == Err::<Option<Seq<EnvV>>, TyErrV>(e@),
            }
        }),
{
    let rs = splice_x(drivers, env, context_elts, unif, crate::resolve::DEPTH_LIMIT);
    match rs {
        Err(e) => Err(e),
        Ok(None) => Ok(None),
        Ok(Some(envs)) => Ok(Some((envs, body.dup()))),
    }
}

/// Walk two enum arm lists: arm names must agree position by position, and
/// each pair of component lists is walked pairwise.
pub open spec fn walk_arms(
    arms_s: Seq<(NameV, Seq<TyV>)>,
    sup_env: EnvV,
    arms_b: Seq<(NameV, Seq<TyV>)>,
    sub_env: EnvV,
    whole_s: TyV,
    whole_b: TyV,
    st: UnifV,
    fuel: nat,
) -> (Result<(), TyErrV>, UnifV)
    decreases fuel, arms_b.len(), 1nat,
{
    if arms_s.len() != arms_b.len() {
        (Err(TyErrV::Mismatch(whole_b, whole_s)), st)
    } else if arms_b.len() == 0 {
        (Ok(()), st)
    } else if arms_s[0].0 != arms_b[0].0 {
        (Err(TyErrV::Mismatch(whole_b, whole_s)), st)
    } else if fuel == 0 {
        (Err(TyErrV::DepthExceeded), st)
    } else {
        match walk_zip(arms_s[0].1, sup_env, arms_b[0].1, sub_env, st, (fuel - 1) as nat) {
            (Err(e), st2) => (Err(e), st2),
            (Ok(u), st2) => walk_arms(
                arms_s.subrange(1, arms_s.len() as int),
                sup_env,
                arms_b.subrange(1, arms_b.len() as int),
                sub_env,
                whole_s,
                whole_b,
                st2,
                fuel,
            ),
        }
    }
}


/// The terms referring to each of the given names, as executable values.
fn vars_of(ps: &Vec<Name>) -> (r: Vec<Ty>)
    ensures
        tys_view(r@) == var_terms(names_view(ps@)),
{
    let mut r: Vec<Ty> = Vec::new();
    let mut i: usize = 0;
    while i < ps.len()
        invariant
            i <= ps@.len(),
            r@.len() == i,
            forall|j: int| 0 <= j < i ==> r@[j]@ == TyV::Var(ps@[j]@),
        decreases ps.len() - i,
    {
        r.push(Ty::Var(ps[i].dup()));
        i = i + 1;
    }
    proof {
        lemma_tys_view_len(r@);
        assert forall|j: int| 0 <= j < r@.len() implies tys_view(r@)[j] == var_terms(
            names_view(ps@),
        )[j] by {
            lemma_tys_view_index(r@, j);
        }
        assert(tys_view(r@) =~= var_terms(names_view(ps@)));
    }
    r
}

/// Find a struct component by name.
fn find_comp<'a>(pairs: &'a Vec<(Name, Ty)>, n: &Name) -> (r: Option<&'a Ty>)
    ensures
        match r {
            Some(t) => find_pair(pairs_view(pairs@), n@) == Some(t@),
            None => find_pair(pairs_view(pairs@), n@) is None,
        },
{
    proof {
        lemma_pairs_view_len(pairs@);
        assert(pairs_view(pairs@).subrange(0, pairs@.len() as int) =~= pairs_view(pairs@));
    }
    let mut k: usize = 0;
    while k < pairs.len()
        invariant
            k <= pairs@.len(),
            find_pair(pairs_view(pairs@), n@) == find_pair(
                pairs_view(pairs@).subrange(k as int, pairs@.len() as int),
                n@,
            ),
        decreases pairs.len() - k,
    {
        proof {
            lemma_pairs_view_len(pairs@);
            lemma_pairs_view_index(pairs@, k as int);
            assert(pairs_view(pairs@).subrange(k as int, pairs@.len() as int).subrange(
                1,
                pairs_view(pairs@).subrange(k as int, pairs@.len() as int).len() as int,
            ) =~= pairs_view(pairs@).subrange(k + 1, pairs@.len() as int));
        }
        if pairs[k].0.same(n) {
            return Some(&pairs[k].1);
        }
        k = k + 1;
    }
    proof {
        assert(pairs_view(pairs@).subrange(
            pairs@.len() as int,
            pairs@.len() as int,
        ) =~= Seq::<(NameV, TyV)>::empty());
    }
    None
}

/// The negative walk, with an explicit budget.
fn walk_go(sup: Clo, sub: Clo, st: &mut UnifStore, fuel: u64) -> (r: Result<(), TyErr>)
    ensures
        ({
            let (s, stv) = walk_neg(sup@, sub@, old(st)@, fuel as nat);
            final(st)@ == stv && match r {
                Ok(u) => s == Ok::<(), TyErrV>(()),
                Err(e) => s == Err::<(), TyErrV>(e@),
            }
        }),
    decreases fuel, 0nat, 0nat,
{
    if fuel == 0 {
        return Err(TyErr::DepthExceeded);
    }
    let pm = pre_match(sup, sub, st, fuel);
    match pm {
        Err(e) => Err(e),
        Ok(None) => Ok(()),
        Ok(Some((s, b))) => {
            match &s.it {
                Ty::Var(n) => {
                    let same_var = match &b.it {
                        Ty::Var(m) => m.same(n),
                        _ => false,
                    };
                    if same_var {
                        Ok(())
                    } else {
                        let unbound = match s.env.find(n) {
                            None => true,
                            Some(_) => false,
                        };
                        if unbound {
                            Err(TyErr::UnboundName(n.dup()))
                        } else {
                            Err(TyErr::Mismatch(b.it.dup(), s.it.dup()))
                        }
                    }
                },
                Ty::Base(n) => {
                    let same_base = match &b.it {
                        Ty::Base(m) => m.same(n),
                        _ => false,
                    };
                    if same_base {
                        Ok(())
                    } else {
                        Err(TyErr::Mismatch(b.it.dup(), s.it.dup()))
                    }
                },
                Ty::Func { params: ps, ret: rs } => match &b.it {
                    Ty::Func { params: pb, ret: rb } => {
                        let r1 = walk_repeated(ps, &s.env, pb, &b.env, st, fuel - 1);
                        match r1 {
                            Err(e) => Err(e),
                            Ok(u) => walk_go(
                                Clo { it: (&**rs).dup(), env: s.env.dup() },
                                Clo { it: (&**rb).dup(), env: b.env.dup() },
                                st,
                                fuel - 1,
                            ),
                        }
                    },
                    _ => Err(TyErr::Mismatch(b.it.dup(), s.it.dup())),
                },
                Ty::Forall { params, body } => {
                    let env_s = instantiate_env(&s.env, params, st);
                    let body_s = (&**body).dup();
                    match b {
                        Clo { it: Ty::Forall { params: pb, body: bb }, env: benv } => {
                            let env_b = instantiate_env(&benv, &pb, st);
                            walk_go(
                                Clo { it: body_s, env: env_s },
                                Clo { it: *bb, env: env_b },
                                st,
                                fuel - 1,
                            )
                        },
                        other => walk_go(Clo { it: body_s, env: env_s }, other, st, fuel - 1),
                    }
                },
                Ty::Mu { params: ps, body: bs } => match &b.it {
                    Ty::Mu { params: pb, body: bb } => {
                        if ps.len() != pb.len() {
                            Err(TyErr::Mismatch(b.it.dup(), s.it.dup()))
                        } else {
                            let vt = vars_of(ps);
                            proof {
                                lemma_tys_view_len(vt@);
                            }
                            let m = crate::resolve::make_subst(pb, &vt);
                            let renamed = crate::subst::apply_subst(&**bb, &m);
                            let env_s2 = crate::canon::protect_env(&s.env, ps);
                            let env_b2 = crate::canon::protect_env(&b.env, ps);
                            walk_go(
                                Clo { it: (&**bs).dup(), env: env_s2 },
                                Clo { it: renamed, env: env_b2 },
                                st,
                                fuel - 1,
                            )
                        }
                    },
                    _ => Err(TyErr::Mismatch(b.it.dup(), s.it.dup())),
                },
                Ty::Apply { rator: rs, args: args_s } => match &b.it {
                    Ty::Apply { rator: rb, args: args_b } => {
                        let r1 = walk_go(
                            Clo { it: (&**rs).dup(), env: s.env.dup() },
                            Clo { it: (&**rb).dup(), env: b.env.dup() },
                            st,
                            fuel - 1,
                        );
                        match r1 {
                            Err(e) => Err(e),
                            Ok(u) => walk_repeated(args_s, &s.env, args_b, &b.env, st, fuel - 1),
                        }
                    },
                    _ => Err(TyErr::Mismatch(b.it.dup(), s.it.dup())),
                },
                Ty::Tuple(cs) => match &b.it {
                    Ty::Tuple(cb) => walk_repeated(cs, &s.env, cb, &b.env, st, fuel - 1),
                    _ => Err(TyErr::Mismatch(b.it.dup(), s.it.dup())),
                },
                Ty::Struct(pairs_s) => match &b.it {
                    Ty::Struct(pairs_b) => {
                        proof {
                            lemma_pairs_view_len(pairs_b@);
                            assert(pairs_view(pairs_b@).subrange(
                                0,
                                pairs_b@.len() as int,
                            ) =~= pairs_view(pairs_b@));
                        }
                        walk_comps(
                        pairs_s,
                        &s.env,
                        pairs_b,
                        0,
                        &b.env,
                        &s.it,
                        &b.it,
                        st,
                        fuel - 1,
                        )
                    },
                    _ => Err(TyErr::Mismatch(b.it.dup(), s.it.dup())),
                },
                Ty::Enum(arms_s) => match &b.it {
                    Ty::Enum(arms_b) => {
                        proof {
                            lemma_arms_view_len(arms_s@);
                            lemma_arms_view_len(arms_b@);
                            assert(arms_view(arms_s@).subrange(
                                0,
                                arms_s@.len() as int,
                            ) =~= arms_view(arms_s@));
                            assert(arms_view(arms_b@).subrange(
                                0,
                                arms_b@.len() as int,
                            ) =~= arms_view(arms_b@));
                        }
                        walk_variants(
                            arms_s,
                            arms_b,
                            0,
                            &s.env,
                            &b.env,
                            &s.it,
                            &b.it,
                            st,
                            fuel - 1,
                        )
                    },
                    _ => Err(TyErr::Mismatch(b.it.dup(), s.it.dup())),
                },
                Ty::DotDotDot { drivers: ds, body: body_s } => match &b.it {
                    Ty::DotDotDot { drivers: db, body: body_b } => {
                        let vs = vars_of(ds);
                        let vb = vars_of(db);
                        proof {
                            lemma_tys_view_len(vs@);
                            lemma_tys_view_len(vb@);
                            assert(tys_view(vs@).subrange(0, vs@.len() as int) =~= tys_view(vs@));
                            assert(tys_view(vb@).subrange(0, vb@.len() as int) =~= tys_view(vb@));
                        }
                        let r1 = walk_list(&vs, &vb, 0, &s.env, &b.env, st, fuel - 1);
                        match r1 {
                            Err(e) => Err(e),
                            Ok(u) => walk_go(
                                Clo { it: (&**body_s).dup(), env: s.env.dup() },
                                Clo { it: (&**body_b).dup(), env: b.env.dup() },
                                st,
                                fuel - 1,
                            ),
                        }
                    },
                    _ => Err(TyErr::Mismatch(b.it.dup(), s.it.dup())),
                },
                Ty::Undet(_) => Err(TyErr::Mismatch(b.it.dup(), s.it.dup())),
            }
        },
    }
}

/// Walk a repeated part, deferring to the splicer when the expected side is a
/// lone splice pattern.
fn walk_repeated(
    sups: &Vec<Ty>,
    sup_env: &Env,
    subs: &Vec<Ty>,
    sub_env: &Env,
    st: &mut UnifStore,
    fuel: u64,
) -> (r: Result<(), TyErr>)
    ensures
        ({
            let (s, stv) = walk_rep(
                tys_view(sups@),
                sup_env@,
                tys_view(subs@),
                sub_env@,
                old(st)@,
                fuel as nat,
            );
            final(st)@ == stv && match r {
                Ok(u) => s == Ok::<(), TyErrV>(()),
                Err(e) => s == Err::<(), TyErrV>(e@),
            }
        }),
    decreases fuel, sups@.len(), 1nat,
{
    proof {
        lemma_tys_view_len(sups@);
        lemma_tys_view_len(subs@);
        if sups@.len() > 0 {
            lemma_tys_view_index(sups@, 0);
        }
        assert(tys_view(sups@).subrange(0, sups@.len() as int) =~= tys_view(sups@));
        assert(tys_view(subs@).subrange(0, subs@.len() as int) =~= tys_view(subs@));
    }
    if sups.len() == 1 && is_ddd(&sups[0]) {
        match &sups[0] {
            Ty::DotDotDot { drivers, body } => {
                let sp = splice_x(drivers, sup_env, subs, st, fuel);
                match sp {
                    Err(e) => Err(e),
                    Ok(None) => walk_list(sups, subs, 0, sup_env, sub_env, st, fuel),
                    Ok(Some(envs)) => {
                        if fuel == 0 {
                            Err(TyErr::DepthExceeded)
                        } else {
                            proof {
                                assert(envs_view(envs@).subrange(
                                    0,
                                    envs@.len() as int,
                                ) =~= envs_view(envs@));
                            }
                            walk_posns(&**body, sup_env, &envs, subs, 0, sub_env, st, fuel - 1)
                        }
                    },
                }
            },
            _ => walk_list(sups, subs, 0, sup_env, sub_env, st, fuel),
        }
    } else {
        walk_list(sups, subs, 0, sup_env, sub_env, st, fuel)
    }
}

/// Walk two term lists pairwise, from position `i` on.
fn walk_list(
    sups: &Vec<Ty>,
    subs: &Vec<Ty>,
    i: usize,
    sup_env: &Env,
    sub_env: &Env,
    st: &mut UnifStore,
    fuel: u64,
) -> (r: Result<(), TyErr>)
    requires
        i <= sups@.len(),
        i <= subs@.len(),
    ensures
        ({
            let (s, stv) = walk_zip(
                tys_view(sups@).subrange(i as int, sups@.len() as int),
                sup_env@,
                tys_view(subs@).subrange(i as int, subs@.len() as int),
                sub_env@,
                old(st)@,
                fuel as nat,
            );
            final(st)@ == stv && match r {
                Ok(u) => s == Ok::<(), TyErrV>(()),
                Err(e) => s == Err::<(), TyErrV>(e@),
            }
        }),
    decreases fuel, sups@.len() - i, 0nat,
{
    proof {
        lemma_tys_view_len(sups@);
        lemma_tys_view_len(subs@);
    }
    let ghost sup_suffix = tys_view(sups@).subrange(i as int, sups@.len() as int);
    let ghost sub_suffix = tys_view(subs@).subrange(i as int, subs@.len() as int);
    if sups.len() - i != subs.len() - i {
        Err(TyErr::LengthMismatch(dup_range(subs, i), sups.len() - i))
    } else if i == sups.len() {
        Ok(())
    } else if fuel == 0 {
        Err(TyErr::DepthExceeded)
    } else {
        proof {
            lemma_tys_view_index(sups@, i as int);
            lemma_tys_view_index(subs@, i as int);
            assert(sup_suffix[0] == sups@[i as int]@);
            assert(sub_suffix[0] == subs@[i as int]@);
            assert(sup_suffix.subrange(1, sup_suffix.len() as int) =~= tys_view(sups@).subrange(
                i + 1,
                sups@.len() as int,
            ));
            assert(sub_suffix.subrange(1, sub_suffix.len() as int) =~= tys_view(subs@).subrange(
                i + 1,
                subs@.len() as int,
            ));
        }
        let r1 = walk_go(
            Clo { it: sups[i].dup(), env: sup_env.dup() },
            Clo { it: subs[i].dup(), env: sub_env.dup() },
            st,
            fuel - 1,
        );
        match r1 {
            Err(e) => Err(e),
            Ok(u) => walk_list(sups, subs, i + 1, sup_env, sub_env, st, fuel),
        }
    }
}

/// Walk a splice body once per context position, from position `i` on.
fn walk_posns(
    body: &Ty,
    sup_env: &Env,
    envs: &Vec<Env>,
    subs: &Vec<Ty>,
    i: usize,
    sub_env: &Env,
    st: &mut UnifStore,
    fuel: u64,
) -> (r: Result<(), TyErr>)
    requires
        i <= envs@.len(),
        i <= subs@.len(),
    ensures
        ({
            let (s, stv) = walk_positions(
                body@,
                sup_env@,
                envs_view(envs@).subrange(i as int, envs@.len() as int),
                tys_view(subs@).subrange(i as int, subs@.len() as int),
                sub_env@,
                old(st)@,
                fuel as nat,
            );
            final(st)@ == stv && match r {
                Ok(u) => s == Ok::<(), TyErrV>(()),
                Err(e) => s == Err::<(), TyErrV>(e@),
            }
        }),
    decreases fuel, subs@.len() - i, 0nat,
{
    proof {
        lemma_tys_view_len(subs@);
    }
    let ghost env_suffix = envs_view(envs@).subrange(i as int, envs@.len() as int);
    let ghost sub_suffix = tys_view(subs@).subrange(i as int, subs@.len() as int);
    if i == subs.len() || i == envs.len() {
        Ok(())
    } else if fuel == 0 {
        Err(TyErr::DepthExceeded)
    } else {
        proof {
            lemma_tys_view_index(subs@, i as int);
            assert(env_suffix[0] == envs@[i as int]@);
            assert(sub_suffix[0] == subs@[i as int]@);
            assert(env_suffix.subrange(1, env_suffix.len() as int) =~= envs_view(envs@).subrange(
                i + 1,
                envs@.len() as int,
            ));
            assert(sub_suffix.subrange(1, sub_suffix.len() as int) =~= tys_view(subs@).subrange(
                i + 1,
                subs@.len() as int,
            ));
        }
        let pos_env = sup_env.set_assoc(&envs[i]);
        let r1 = walk_go(
            Clo { it: body.dup(), env: pos_env },
            Clo { it: subs[i].dup(), env: sub_env.dup() },
            st,
            fuel - 1,
        );
        match r1 {
            Err(e) => Err(e),
            Ok(u) => walk_posns(body, sup_env, envs, subs, i + 1, sub_env, st, fuel),
        }
    }
}

/// Walk a struct pair: each candidate component, from position `i` on, must
/// appear by name in the expected struct and fit the component found there.
fn walk_comps(
    pairs_s: &Vec<(Name, Ty)>,
    sup_env: &Env,
    pairs_b: &Vec<(Name, Ty)>,
    i: usize,
    sub_env: &Env,
    whole_s: &Ty,
    whole_b: &Ty,
    st: &mut UnifStore,
    fuel: u64,
) -> (r: Result<(), TyErr>)
    requires
        i <= pairs_b@.len(),
    ensures
        ({
            let (s, stv) = walk_pairs(
                pairs_view(pairs_s@),
                sup_env@,
                pairs_view(pairs_b@).subrange(i as int, pairs_b@.len() as int),
                sub_env@,
                whole_s@,
                whole_b@,
                old(st)@,
                fuel as nat,
            );
            final(st)@ == stv && match r {
                Ok(u) => s == Ok::<(), TyErrV>(()),
                Err(e) => s == Err::<(), TyErrV>(e@),
            }
        }),
    decreases fuel, pairs_b@.len() - i, 0nat,
{
    proof {
        lemma_pairs_view_len(pairs_b@);
    }
    let ghost suffix = pairs_view(pairs_b@).subrange(i as int, pairs_b@.len() as int);
    if i == pairs_b.len() {
        Ok(())
    } else if fuel == 0 {
        Err(TyErr::DepthExceeded)
    } else {
        proof {
            lemma_pairs_view_index(pairs_b@, i as int);
            assert(suffix[0] == (pairs_b@[i as int].0@, pairs_b@[i as int].1@));
            assert(suffix.subrange(1, suffix.len() as int) =~= pairs_view(pairs_b@).subrange(
                i + 1,
                pairs_b@.len() as int,
            ));
        }
        let found = find_comp(pairs_s, &pairs_b[i].0);
        match found {
            None => Err(TyErr::Mismatch(whole_b.dup(), whole_s.dup())),
            Some(sc) => {
                let sc2 = sc.dup();
                let r1 = walk_go(
                    Clo { it: sc2, env: sup_env.dup() },
                    Clo { it: pairs_b[i].1.dup(), env: sub_env.dup() },
                    st,
                    fuel - 1,
                );
                match r1 {
                    Err(e) => Err(e),
                    Ok(u) => walk_comps(
                        pairs_s,
                        sup_env,
                        pairs_b,
                        i + 1,
                        sub_env,
                        whole_s,
                        whole_b,
                        st,
                        fuel,
                    ),
                }
            },
        }
    }
}

/// Walk two enum arm lists from position `i` on: names must agree position by
/// position, and the component lists are walked pairwise.
fn walk_variants(
    arms_s: &Vec<(Name, Vec<Ty>)>,
    arms_b: &Vec<(Name, Vec<Ty>)>,
    i: usize,
    sup_env: &Env,
    sub_env: &Env,
    whole_s: &Ty,
    whole_b: &Ty,
    st: &mut UnifStore,
    fuel: u64,
) -> (r: Result<(), TyErr>)
    requires
        i <= arms_s@.len(),
        i <= arms_b@.len(),
    ensures
        ({
            let (s, stv) = walk_arms(
                arms_view(arms_s@).subrange(i as int, arms_s@.len() as int),
                sup_env@,
                arms_view(arms_b@).subrange(i as int, arms_b@.len() as int),
                sub_env@,
                whole_s@,
                whole_b@,
                old(st)@,
                fuel as nat,
            );
            final(st)@ == stv && match r {
                Ok(u) => s == Ok::<(), TyErrV>(()),
                Err(e) => s == Err::<(), TyErrV>(e@),
            }
        }),
    decreases fuel, arms_b@.len() - i, 1nat,
{
    proof {
        lemma_arms_view_len(arms_s@);
        lemma_arms_view_len(arms_b@);
    }
    let ghost s_suffix = arms_view(arms_s@).subrange(i as int, arms_s@.len() as int);
    let ghost b_suffix = arms_view(arms_b@).subrange(i as int, arms_b@.len() as int);
    if arms_s.len() - i != arms_b.len() - i {
        Err(TyErr::Mismatch(whole_b.dup(), whole_s.dup()))
    } else if i == arms_b.len() {
        Ok(())
    } else {
        proof {
            lemma_arms_view_index(arms_s@, i as int);
            lemma_arms_view_index(arms_b@, i as int);
            assert(s_suffix[0] == (arms_s@[i as int].0@, tys_view(arms_s@[i as int].1@)));
            assert(b_suffix[0] == (arms_b@[i as int].0@, tys_view(arms_b@[i as int].1@)));
            assert(s_suffix.subrange(1, s_suffix.len() as int) =~= arms_view(arms_s@).subrange(
                i + 1,
                arms_s@.len() as int,
            ));
            assert(b_suffix.subrange(1, b_suffix.len() as int) =~= arms_view(arms_b@).subrange(
                i + 1,
                arms_b@.len() as int,
            ));
        }
        if !arms_s[i].0.same(&arms_b[i].0) {
            Err(TyErr::Mismatch(whole_b.dup(), whole_s.dup()))
        } else if fuel == 0 {
            Err(TyErr::DepthExceeded)
        } else {
            proof {
                lemma_tys_view_len(arms_s@[i as int].1@);
                lemma_tys_view_len(arms_b@[i as int].1@);
                assert(tys_view(arms_s@[i as int].1@).subrange(
                    0,
                    arms_s@[i as int].1@.len() as int,
                ) =~= tys_view(arms_s@[i as int].1@));
                assert(tys_view(arms_b@[i as int].1@).subrange(
                    0,
                    arms_b@[i as int].1@.len() as int,
                ) =~= tys_view(arms_b@[i as int].1@));
            }
            let r1 = walk_list(&arms_s[i].1, &arms_b[i].1, 0, sup_env, sub_env, st, fuel - 1);
            match r1 {
                Err(e) => Err(e),
                Ok(u) => walk_variants(
                    arms_s,
                    arms_b,
                    i + 1,
                    sup_env,
                    sub_env,
                    whole_s,
                    whole_b,
                    st,
                    fuel,
                ),
            }
        }
    }
}


/// The larger of two counter values.
pub open spec fn nat_max(a: nat, b: nat) -> nat {
    if a < b {
        b
    } else {
        a
    }
}

/// A counter value strictly above any generated name's counter in one name.
pub open spec fn gbound_name(n: NameV) -> nat {
    match n {
        NameV::Gen(k, _) => bump(k),
        _ => 0,
    }
}

/// A counter value strictly above any generated name occurring in a term, so
/// that fresh names generated from it cannot collide with names already in
/// the term.
pub open spec fn gbound(t: TyV) -> nat
    decreases size(t), 0nat,
{
    match t {
        TyV::Var(n) => gbound_name(n),
        TyV::Base(n) => gbound_name(n),
        TyV::Undet(n) => gbound_name(n),
        TyV::Func { params, ret } => nat_max(gbound_seq(params), gbound(*ret)),
        TyV::Forall { params, body } => nat_max(gbound_names(params), gbound(*body)),
        TyV::Mu { params, body } => nat_max(gbound_names(params), gbound(*body)),
        TyV::Apply { rator, args } => nat_max(gbound(*rator), gbound_seq(args)),
        TyV::Tuple(comps) => gbound_seq(comps),
        TyV::Struct(pairs) => gbound_pairs(pairs),
        TyV::Enum(arms) => gbound_arms(arms),
        TyV::DotDotDot { drivers, body } => nat_max(gbound_names(drivers), gbound(*body)),
    }
}

pub open spec fn gbound_seq(s: Seq<TyV>) -> nat
    decreases size_seq(s), 1nat,
{
    if s.len() == 0 {
        0
    } else {
        proof {
            crate::terms::lemma_size_seq_elem(s, 0);
        }
        nat_max(gbound(s[0]), gbound_seq(s.subrange(1, s.len() as int)))
    }
}

pub open spec fn gbound_pairs(s: Seq<(NameV, TyV)>) -> nat
    decreases size_pairs(s), 1nat,
{
    if s.len() == 0 {
        0
    } else {
        proof {
            crate::terms::lemma_size_pairs_elem(s, 0);
        }
        nat_max(
            nat_max(gbound_name(s[0].0), gbound(s[0].1)),
            gbound_pairs(s.subrange(1, s.len() as int)),
        )
    }
}

pub open spec fn gbound_arms(s: Seq<(NameV, Seq<TyV>)>) -> nat
    decreases size_arms(s), 2nat,
{
    if s.len() == 0 {
        0
    } else {
        proof {
            crate::terms::lemma_size_arms_elem(s, 0);
        }
        nat_max(
            nat_max(gbound_name(s[0].0), gbound_seq(s[0].1)),
            gbound_arms(s.subrange(1, s.len() as int)),
        )
    }
}

pub open spec fn gbound_names(s: Seq<NameV>) -> nat
    decreases s.len(),
{
    if s.len() == 0 {
        0
    } else {
        nat_max(gbound_name(s[0]), gbound_names(s.subrange(1, s.len() as int)))
    }
}

/// The fresh-name counter a new session starts from: strictly above any
/// generated name in the two types and the environment, so that placeholders
/// generated during the check stay fresh.
pub open spec fn session_start(sub: TyV, sup: TyV, env: EnvV) -> UnifV {
    UnifV {
        entries: Seq::<(NameV, CloV)>::empty(),
        next: nat_max(nat_max(gbound(sub), gbound(sup)), gbound_pairs(env)),
    }
}

/// The larger of two counter values.
fn u64_max(a: u64, b: u64) -> (r: u64)
    ensures
        r as nat == nat_max(a as nat, b as nat),
{
    if a < b {
        b
    } else {
        a
    }
}

fn gen_bound_name(n: &Name) -> (r: u64)
    ensures
        r as nat == gbound_name(n@),
{
    match n {
        Name::Gen(k, _) => if *k < u64::MAX {
            *k + 1
        } else {
            *k
        },
        _ => 0,
    }
}

/// A counter value strictly above any generated name occurring in a term.
fn gen_bound_ty(t: &Ty) -> (r: u64)
    ensures
        r as nat == gbound(t@),
    decreases size(t@), 0nat,
{
    match t {
        Ty::Var(n) => gen_bound_name(n),
        Ty::Base(n) => gen_bound_name(n),
        Ty::Undet(n) => gen_bound_name(n),
        Ty::Func { params, ret } => {
            proof {
                crate::terms::lemma_size_pos((&**ret)@);
            }
            u64_max(gen_bound_tys(params), gen_bound_ty(&**ret))
        },
        Ty::Forall { params, body } => u64_max(gen_bound_names(params), gen_bound_ty(&**body)),
        Ty::Mu { params, body } => u64_max(gen_bound_names(params), gen_bound_ty(&**body)),
        Ty::Apply { rator, args } => {
            proof {
                crate::terms::lemma_size_pos((&**rator)@);
            }
            u64_max(gen_bound_ty(&**rator), gen_bound_tys(args))
        },
        Ty::Tuple(comps) => gen_bound_tys(comps),
        Ty::Struct(pairs) => gen_bound_pairs(pairs),
        Ty::Enum(arms) => gen_bound_arms(arms),
        Ty::DotDotDot { drivers, body } => u64_max(
            gen_bound_names(drivers),
            gen_bound_ty(&**body),
        ),
    }
}

fn gen_bound_tys(v: &Vec<Ty>) -> (r: u64)
    ensures
        r as nat == gbound_seq(tys_view(v@)),
    decreases size_seq(tys_view(v@)), 2nat,
{
    proof {
        lemma_tys_view_len(v@);
        assert(tys_view(v@).subrange(0, v@.len() as int) =~= tys_view(v@));
    }
    gen_bound_tys_from(v, 0)
}

fn gen_bound_tys_from(v: &Vec<Ty>, i: usize) -> (r: u64)
    requires
        i <= v@.len(),
    ensures
        r as nat == gbound_seq(tys_view(v@).subrange(i as int, v@.len() as int)),
    decreases size_seq(tys_view(v@).subrange(i as int, v@.len() as int)), 1nat,
{
    proof {
        lemma_tys_view_len(v@);
    }
    let ghost suffix = tys_view(v@).subrange(i as int, v@.len() as int);
    if i == v.len() {
        proof {
            assert(suffix =~= Seq::<TyV>::empty());
        }
        0
    } else {
        proof {
            lemma_tys_view_index(v@, i as int);
            crate::terms::lemma_size_seq_elem(suffix, 0);
            crate::terms::lemma_size_pos(suffix[0]);
            assert(suffix[0] == v@[i as int]@);
            assert(suffix.subrange(1, suffix.len() as int) =~= tys_view(v@).subrange(
                i + 1,
                v@.len() as int,
            ));
        }
        u64_max(gen_bound_ty(&v[i]), gen_bound_tys_from(v, i + 1))
    }
}

fn gen_bound_pairs(v: &Vec<(Name, Ty)>) -> (r: u64)
    ensures
        r as nat == gbound_pairs(pairs_view(v@)),
    decreases size_pairs(pairs_view(v@)), 2nat,
{
    proof {
        lemma_pairs_view_len(v@);
        assert(pairs_view(v@).subrange(0, v@.len() as int) =~= pairs_view(v@));
    }
    gen_bound_pairs_from(v, 0)
}

fn gen_bound_pairs_from(v: &Vec<(Name, Ty)>, i: usize) -> (r: u64)
    requires
        i <= v@.len(),
    ensures
        r as nat == gbound_pairs(pairs_view(v@).subrange(i as int, v@.len() as int)),
    decreases size_pairs(pairs_view(v@).subrange(i as int, v@.len() as int)), 1nat,
{
    proof {
        lemma_pairs_view_len(v@);
    }
    let ghost suffix = pairs_view(v@).subrange(i as int, v@.len() as int);
    if i == v.len() {
        proof {
            assert(suffix =~= Seq::<(NameV, TyV)>::empty());
        }
        0
    } else {
        proof {
            lemma_pairs_view_index(v@, i as int);
            crate::terms::lemma_size_pairs_elem(suffix, 0);
            crate::terms::lemma_size_pos(suffix[0].1);
            assert(suffix[0] == (v@[i as int].0@, v@[i as int].1@));
            assert(suffix.subrange(1, suffix.len() as int) =~= pairs_view(v@).subrange(
                i + 1,
                v@.len() as int,
            ));
        }
        u64_max(
            u64_max(gen_bound_name(&v[i].0), gen_bound_ty(&v[i].1)),
            gen_bound_pairs_from(v, i + 1),
        )
    }
}

fn gen_bound_arms(v: &Vec<(Name, Vec<Ty>)>) -> (r: u64)
    ensures
        r as nat == gbound_arms(arms_view(v@)),
    decreases size_arms(arms_view(v@)), 4nat,
{
    proof {
        lemma_arms_view_len(v@);
        assert(arms_view(v@).subrange(0, v@.len() as int) =~= arms_view(v@));
    }
    gen_bound_arms_from(v, 0)
}

fn gen_bound_arms_from(v: &Vec<(Name, Vec<Ty>)>, i: usize) -> (r: u64)
    requires
        i <= v@.len(),
    ensures
        r as nat == gbound_arms(arms_view(v@).subrange(i as int, v@.len() as int)),
    decreases size_arms(arms_view(v@).subrange(i as int, v@.len() as int)), 3nat,
{
    proof {
        lemma_arms_view_len(v@);
    }
    let ghost suffix = arms_view(v@).subrange(i as int, v@.len() as int);
    if i == v.len() {
        proof {
            assert(suffix =~= Seq::<(NameV, Seq<TyV>)>::empty());
        }
        0
    } else {
        proof {
            lemma_arms_view_index(v@, i as int);
            crate::terms::lemma_size_arms_elem(suffix, 0);
            assert(suffix[0] == (v@[i as int].0@, tys_view(v@[i as int].1@)));
            assert(suffix.subrange(1, suffix.len() as int) =~= arms_view(v@).subrange(
                i + 1,
                v@.len() as int,
            ));
        }
        u64_max(
            u64_max(gen_bound_name(&v[i].0), gen_bound_tys(&v[i].1)),
            gen_bound_arms_from(v, i + 1),
        )
    }
}

fn gen_bound_names(v: &Vec<Name>) -> (r: u64)
    ensures
        r as nat == gbound_names(names_view(v@)),
{
    let mut r: u64 = 0;
    let mut i: usize = v.len();
    while i > 0
        invariant
            i <= v@.len(),
            r as nat == gbound_names(names_view(v@).subrange(i as int, v@.len() as int)),
        decreases i,
    {
        i = i - 1;
        proof {
            let suffix = names_view(v@).subrange(i as int, v@.len() as int);
            assert(suffix[0] == v@[i as int]@);
            assert(suffix.subrange(1, suffix.len() as int) =~= names_view(v@).subrange(
                i + 1,
                v@.len() as int,
            ));
        }
        r = u64_max(gen_bound_name(&v[i]), r);
    }
    proof {
        assert(names_view(v@).subrange(0, v@.len() as int) =~= names_view(v@));
    }
    r
}

/// Check that the candidate type `sub` may stand in for the expected type
/// `sup` under the environment: `sub` must be a subtype of `sup`. The walk
/// consults the given unification store and records in it, by design, every
/// placeholder determination it makes; the determinations stay visible to
/// later checks in the same session. On success the returned environment is
/// empty: everything the walk discovered lives in the store.
pub fn is_subtype(sub: &Ty, sup: &Ty, env: &Env, unif: &mut UnifStore) -> (r: Result<Env, TyErr>)
    ensures
        ({
            let (s, stv) = walk_neg(
                CloV { it: sup@, env: env@ },
                CloV { it: sub@, env: env@ },
                old(unif)@,
                crate::resolve::DEPTH_LIMIT as nat,
            );
            final(unif)@ == stv && match r {
                Ok(e) => s == Ok::<(), TyErrV>(()) && e@ == Seq::<(NameV, TyV)>::empty(),
                Err(x) => s == Err::<(), TyErrV>(x@),
            }
        }),
{
    let rr = walk_go(
        Clo { it: sup.dup(), env: env.dup() },
        Clo { it: sub.dup(), env: env.dup() },
        unif,
        crate::resolve::DEPTH_LIMIT,
    );
    match rr {
        Ok(u) => Ok(Env::new()),
        Err(e) => Err(e),
    }
}

/// Check that `sub` is a subtype of `sup` in a fresh session: a top-level,
/// single-environment convenience around `is_subtype`. The session's store
/// starts empty, with its fresh-name counter above every generated name in
/// the inputs, and is discarded afterwards.
pub fn must_subtype(sub: &Ty, sup: &Ty, env: &Env) -> (r: Result<Env, TyErr>)
    ensures
        ({
            let (s, stv) = walk_neg(
                CloV { it: sup@, env: env@ },
                CloV { it: sub@, env: env@ },
                session_start(sub@, sup@, env@),
                crate::resolve::DEPTH_LIMIT as nat,
            );
            match r {
                Ok(e) => s == Ok::<(), TyErrV>(()) && e@ == Seq::<(NameV, TyV)>::empty(),
                Err(x) => s == Err::<(), TyErrV>(x@),
            }
        }),
{
    let bound = u64_max(
        u64_max(gen_bound_ty(sub), gen_bound_ty(sup)),
        gen_bound_pairs(&env.binds),
    );
    let mut st = UnifStore::starting_at(bound);
    proof {
        assert(st@ == session_start(sub@, sup@, env@));
    }
    is_subtype(sub, sup, env, &mut st)
}

/// Check that two types are equal: both canonicalize, in a fresh session with
/// no recorded determinations, to the same normal form. A canonicalization
/// error on either side propagates; unequal normal forms are a `Mismatch`
/// carrying the original terms.
pub fn must_equal(lhs: &Ty, rhs: &Ty, env: &Env) -> (r: Result<(), TyErr>)
    ensures
        ({
            let st0 = Seq::<(NameV, CloV)>::empty();
            let cl = crate::canon::canon(
                CloV { it: lhs@, env: env@ },
                st0,
                crate::resolve::DEPTH_LIMIT as nat,
            );
            let cr = crate::canon::canon(
                CloV { it: rhs@, env: env@ },
                st0,
                crate::resolve::DEPTH_LIMIT as nat,
            );
            match r {
                Ok(u) => cl is Ok && cr is Ok && cl->Ok_0 == cr->Ok_0,
                Err(e) => (cl is Err && e@ == cl->Err_0) || (cl is Ok && cr is Err && e@
                    == cr->Err_0) || (cl is Ok && cr is Ok && cl->Ok_0 != cr->Ok_0 && e@
                    == TyErrV::Mismatch(lhs@, rhs@)),
            }
        }),
{
    let st = UnifStore::new();
    let cl = crate::canon::canonicalize(lhs, env, &st);
    match cl {
        Err(e) => Err(e),
        Ok(lt) => {
            let cr = crate::canon::canonicalize(rhs, env, &st);
            match cr {
                Err(e) => Err(e),
                Ok(rt) => {
                    if lt.same_ty(&rt) {
                        Ok(())
                    } else {
                        Err(TyErr::Mismatch(lhs.dup(), rhs.dup()))
                    }
                },
            }
        },
    }
}

} // verus!

//! The canonicalizer: the positive walk.
//!
//! Canonicalization produces the fully-resolved form of a type for equality
//! comparison and display. Variable references are resolved through the
//! environment and canonicalized, unless mu-protected (bound to themselves),
//! in which case they stay as they are; so do unbound references.
//! Underdetermined placeholders are looked up in the unification store and
//! their recorded closures canonicalized; an unbound placeholder is an
//! `UnboundName` error. A type application is resolved first; one already at
//! a fixed point (its operator is a protected variable) is canonicalized in
//! place. Binder nodes (`forall`, `mu`) protect their parameters while their
//! bodies are canonicalized. Canonicalization introduces no new placeholders
//! and never mutates the unification store.

use vstd::prelude::*;

use crate::env::env_find;
use crate::env::store_find;
use crate::env::Clo;
use crate::env::CloV;
use crate::env::Env;
use crate::env::EnvV;
use crate::env::UnifStore;
use crate::names::Name;
use crate::names::NameV;
use crate::resolve::resolve_go;
use crate::resolve::resolve_r;
use crate::resolve::DEPTH_LIMIT;
use crate::subst::shadow;
use crate::terms::arms_view;
use crate::terms::dup_names;
use crate::terms::lemma_arms_view_index;
use crate::terms::lemma_arms_view_len;
use crate::terms::lemma_pairs_view_index;
use crate::terms::lemma_pairs_view_len;
use crate::terms::lemma_size_arms_elem;
use crate::terms::lemma_size_pairs_elem;
use crate::terms::lemma_size_pos;
use crate::terms::lemma_size_seq_elem;
use crate::terms::lemma_tys_view_index;
use crate::terms::lemma_tys_view_len;
use crate::terms::names_view;
use crate::terms::pairs_view;
use crate::terms::size;
use crate::terms::size_arms;
use crate::terms::size_pairs;
use crate::terms::size_seq;
use crate::terms::tys_view;
use crate::terms::Ty;
use crate::terms::TyErr;
use crate::terms::TyErrV;
use crate::terms::TyV;

verus! {

/// An environment in which every one of the given binder parameters is
/// protected: bound to itself.
pub open spec fn protect(e: EnvV, params: Seq<NameV>) -> EnvV {
    shadow(e, params)
}

/// The model of canonicalization, with a recursion budget.
pub open spec fn canon(c: CloV, st: Seq<(NameV, CloV)>, fuel: nat) -> Result<TyV, TyErrV>
    decreases fuel, size(c.it), 0nat,
{
    match c.it {
        TyV::Var(n) => match env_find(c.env, n) {
            None => Ok(TyV::Var(n)),
            Some(t) => if t == TyV::Var(n) {
                Ok(TyV::Var(n))
            } else if fuel == 0 {
                Err(TyErrV::DepthExceeded)
            } else {
                canon(CloV { it: t, env: c.env }, st, (fuel - 1) as nat)
            },
        },
        TyV::Undet(id) => match store_find(st, id) {
            None => Err(TyErrV::UnboundName(id)),
            Some(c2) => if fuel == 0 {
                Err(TyErrV::DepthExceeded)
            } else {
                canon(c2, st, (fuel - 1) as nat)
            },
        },
        TyV::Apply { rator, args } => match resolve_r(c, st, fuel) {
            Err(e) => Err(e),
            Ok(rc) => if rc.it == c.it {
                match canon(CloV { it: *rator, env: c.env }, st, fuel) {
                    Err(e) => Err(e),
                    Ok(cr) => match canon_each(args, c.env, st, fuel) {
                        Err(e) => Err(e),
                        Ok(cargs) => Ok(TyV::Apply { rator: Box::new(cr), args: cargs }),
                    },
                }
            } else if fuel == 0 {
                Err(TyErrV::DepthExceeded)
            } else {
                canon(rc, st, (fuel - 1) as nat)
            },
        },
        TyV::Base(n) => Ok(TyV::Base(n)),
        TyV::Func { params, ret } => match canon_each(params, c.env, st, fuel) {
            Err(e) => Err(e),
            Ok(cparams) => match canon(CloV { it: *ret, env: c.env }, st, fuel) {
                Err(e) => Err(e),
                Ok(cret) => Ok(TyV::Func { params: cparams, ret: Box::new(cret) }),
            },
        },
        TyV::Forall { params, body } => match canon(
            CloV { it: *body, env: protect(c.env, params) },
            st,
            fuel,
        ) {
            Err(e) => Err(e),
            Ok(cbody) => Ok(TyV::Forall { params, body: Box::new(cbody) }),
        },
        TyV::Mu { params, body } => match canon(
            CloV { it: *body, env: protect(c.env, params) },
            st,
            fuel,
        ) {
            Err(e) => Err(e),
            Ok(cbody) => Ok(TyV::Mu { params, body: Box::new(cbody) }),
        },
        TyV::Tuple(comps) => match canon_each(comps, c.env, st, fuel) {
            Err(e) => Err(e),
            Ok(ccomps) => Ok(TyV::Tuple(ccomps)),
        },
        TyV::Struct(pairs) => match canon_pairs(pairs, c.env, st, fuel) {
            Err(e) => Err(e),
            Ok(cpairs) => Ok(TyV::Struct(cpairs)),
        },
        TyV::Enum(arms) => match canon_arms(arms, c.env, st, fuel) {
            Err(e) => Err(e),
            Ok(carms) => Ok(TyV::Enum(carms)),
        },
        TyV::DotDotDot { drivers, body } => match canon(
            CloV { it: *body, env: c.env },
            st,
            fuel,
        ) {
            Err(e) => Err(e),
            Ok(cbody) => Ok(TyV::DotDotDot { drivers, body: Box::new(cbody) }),
        },
    }
}

/// Canonicalize each term of a list under one environment.
pub open spec fn canon_each(s: Seq<TyV>, env: EnvV, st: Seq<(NameV, CloV)>, fuel: nat) -> Result<
    Seq<TyV>,
    TyErrV,
>
    decreases fuel, size_seq(s), 1nat,
{
    if s.len() == 0 {
        Ok(Seq::empty())
    } else {
        proof {
            lemma_size_seq_elem(s, 0);
            lemma_size_pos(s[0]);
        }
        match canon(CloV { it: s[0], env }, st, fuel) {
            Err(e) => Err(e),
            Ok(ct) => match canon_each(s.subrange(1, s.len() as int), env, st, fuel) {
                Err(e) => Err(e),
                Ok(rest) => Ok(seq![ct] + rest),
            },
        }
    }
}

/// Canonicalize each component of a struct's component list.
pub open spec fn canon_pairs(
    s: Seq<(NameV, TyV)>,
    env: EnvV,
    st: Seq<(NameV, CloV)>,
    fuel: nat,
) -> Result<Seq<(NameV, TyV)>, TyErrV>
    decreases fuel, size_pairs(s), 1nat,
{
    if s.len() == 0 {
        Ok(Seq::empty())
    } else {
        proof {
            lemma_size_pairs_elem(s, 0);
            lemma_size_pos(s[0].1);
        }
        match canon(CloV { it: s[0].1, env }, st, fuel) {
            Err(e) => Err(e),
            Ok(ct) => match canon_pairs(s.subrange(1, s.len() as int), env, st, fuel) {
                Err(e) => Err(e),
                Ok(rest) => Ok(seq![(s[0].0, ct)] + rest),
            },
        }
    }
}

/// Canonicalize each arm of an enum's arm list.
pub open spec fn canon_arms(
    s: Seq<(NameV, Seq<TyV>)>,
    env: EnvV,
    st: Seq<(NameV, CloV)>,
    fuel: nat,
) -> Result<Seq<(NameV, Seq<TyV>)>, TyErrV>
    decreases fuel, size_arms(s), 2nat,
{
    if s.len() == 0 {
        Ok(Seq::empty())
    } else {
        proof {
            lemma_size_arms_elem(s, 0);
        }
        match canon_each(s[0].1, env, st, fuel) {
            Err(e) => Err(e),
            Ok(ccomps) => match canon_arms(s.subrange(1, s.len() as int), env, st, fuel) {
                Err(e) => Err(e),
                Ok(rest) => Ok(seq![(s[0].0, ccomps)] + rest),
            },
        }
    }
}

/// The environment with every one of the given parameters protected.
pub(crate) fn protect_env(e: &Env, params: &Vec<Name>) -> (r: Env)
    ensures
        r@ == protect(e@, names_view(params@)),
{
    let mut r = e.dup();
    let mut i: usize = 0;
    while i < params.len()
        invariant
            i <= params.len(),
            r@ == protect(e@, names_view(params@)).subrange(0, e@.len() + i as int),
        decreases params.len() - i,
    {
        proof {
            assert(protect(e@, names_view(params@)).subrange(0, e@.len() + i as int).push(
                (params@[i as int]@, TyV::Var(params@[i as int]@)),
            ) =~= protect(e@, names_view(params@)).subrange(0, e@.len() + i + 1));
        }
        let p = params[i].dup();
        let v = Ty::Var(params[i].dup());
        r = r.set(p, v);
        i = i + 1;
    }
    proof {
        assert(protect(e@, names_view(params@)).subrange(
            0,
            e@.len() + params@.len() as int,
        ) =~= protect(e@, names_view(params@)));
    }
    r
}

/// Canonicalization with an explicit budget.
pub fn canon_go(c: Clo, st: &UnifStore, fuel: u64) -> (r: Result<Ty, TyErr>)
    ensures
        ({
            let s = canon(c@, st@.entries, fuel as nat);
            match r {
                Ok(t) => s == Ok::<TyV, TyErrV>(t@),
                Err(e) => s == Err::<TyV, TyErrV>(e@),
            }
        }),
    decreases fuel, size(c@.it), 0nat,
{
    let ghost s0 = canon(c@, st@.entries, fuel as nat);
    match &c.it {
        Ty::Var(n) => {
            let found = c.env.find(n);
            match found {
                None => Ok(Ty::Var(n.dup())),
                Some(t) => {
                    let prot = match t {
                        Ty::Var(m) => m.same(n),
                        _ => false,
                    };
                    if prot {
                        Ok(Ty::Var(n.dup()))
                    } else if fuel == 0 {
                        Err(TyErr::DepthExceeded)
                    } else {
                        let t2 = t.dup();
                        canon_go(Clo { it: t2, env: c.env }, st, fuel - 1)
                    }
                },
            }
        },
        Ty::Undet(id) => {
            let found = st.find(id);
            match found {
                None => Err(TyErr::UnboundName(id.dup())),
                Some(c2) => {
                    if fuel == 0 {
                        Err(TyErr::DepthExceeded)
                    } else {
                        let c2d = c2.dup();
                        canon_go(c2d, st, fuel - 1)
                    }
                },
            }
        },
        Ty::Apply { rator, args } => {
            proof {
                lemma_size_pos((&**rator)@);
                lemma_tys_view_len(args@);
                assert(tys_view(args@).subrange(0, args@.len() as int) =~= tys_view(args@));
            }
            let rr = resolve_go(c.dup(), st, fuel);
            match rr {
                Err(e) => Err(e),
                Ok(rc) => {
                    if rc.it.same_ty(&c.it) {
                        let cr = canon_go(
                            Clo { it: (&**rator).dup(), env: c.env.dup() },
                            st,
                            fuel,
                        );
                        match cr {
                            Err(e) => Err(e),
                            Ok(crt) => {
                                let ca = canon_list(args, 0, &c.env, st, fuel);
                                match ca {
                                    Err(e) => Err(e),
                                    Ok(cargs) => Ok(Ty::Apply {
                                        rator: Box::new(crt),
                                        args: cargs,
                                    }),
                                }
                            },
                        }
                    } else if fuel == 0 {
                        Err(TyErr::DepthExceeded)
                    } else {
                        canon_go(rc, st, fuel - 1)
                    }
                },
            }
        },
        Ty::Base(n) => Ok(Ty::Base(n.dup())),
        Ty::Func { params, ret } => {
            proof {
                lemma_size_pos((&**ret)@);
                lemma_tys_view_len(params@);
                assert(tys_view(params@).subrange(0, params@.len() as int) =~= tys_view(
                    params@,
                ));
            }
            let cp = canon_list(params, 0, &c.env, st, fuel);
            match cp {
                Err(e) => Err(e),
                Ok(cparams) => {
                    let cr = canon_go(Clo { it: (&**ret).dup(), env: c.env }, st, fuel);
                    match cr {
                        Err(e) => Err(e),
                        Ok(cret) => Ok(Ty::Func { params: cparams, ret: Box::new(cret) }),
                    }
                },
            }
        },
        Ty::Forall { params, body } => {
            let env2 = protect_env(&c.env, params);
            let cb = canon_go(Clo { it: (&**body).dup(), env: env2 }, st, fuel);
            match cb {
                Err(e) => Err(e),
                Ok(cbody) => Ok(Ty::Forall {
                    params: dup_names(params),
                    body: Box::new(cbody),
                }),
            }
        },
        Ty::Mu { params, body } => {
            let env2 = protect_env(&c.env, params);
            let cb = canon_go(Clo { it: (&**body).dup(), env: env2 }, st, fuel);
            match cb {
                Err(e) => Err(e),
                Ok(cbody) => Ok(Ty::Mu { params: dup_names(params), body: Box::new(cbody) }),
            }
        },
        Ty::Tuple(comps) => {
            proof {
                lemma_tys_view_len(comps@);
                assert(tys_view(comps@).subrange(0, comps@.len() as int) =~= tys_view(comps@));
            }
            let cc = canon_list(comps, 0, &c.env, st, fuel);
            match cc {
                Err(e) => Err(e),
                Ok(ccomps) => Ok(Ty::Tuple(ccomps)),
            }
        },
        Ty::Struct(pairs) => {
            proof {
                lemma_pairs_view_len(pairs@);
                assert(pairs_view(pairs@).subrange(0, pairs@.len() as int) =~= pairs_view(
                    pairs@,
                ));
            }
            let cp = canon_comps(pairs, 0, &c.env, st, fuel);
            match cp {
                Err(e) => Err(e),
                Ok(cpairs) => Ok(Ty::Struct(cpairs)),
            }
        },
        Ty::Enum(arms) => {
            proof {
                lemma_arms_view_len(arms@);
                assert(arms_view(arms@).subrange(0, arms@.len() as int) =~= arms_view(arms@));
            }
            let ca = canon_arms_x(arms, 0, &c.env, st, fuel);
            match ca {
                Err(e) => Err(e),
                Ok(carms) => Ok(Ty::Enum(carms)),
            }
        },
        Ty::DotDotDot { drivers, body } => {
            let cb = canon_go(Clo { it: (&**body).dup(), env: c.env }, st, fuel);
            match cb {
                Err(e) => Err(e),
                Ok(cbody) => Ok(Ty::DotDotDot {
                    drivers: dup_names(drivers),
                    body: Box::new(cbody),
                }),
            }
        },
    }
}

/// Canonicalize each term of `v` from position `i` on.
fn canon_list(v: &Vec<Ty>, i: usize, env: &Env, st: &UnifStore, fuel: u64) -> (r: Result<
    Vec<Ty>,
    TyErr,
>)
    requires
        i <= v@.len(),
    ensures
        ({
            let s = canon_each(
                tys_view(v@).subrange(i as int, v@.len() as int),
                env@,
                st@.entries,
                fuel as nat,
            );
            match r {
                Ok(out) => s == Ok::<Seq<TyV>, TyErrV>(tys_view(out@)),
                Err(e) => s == Err::<Seq<TyV>, TyErrV>(e@),
            }
        }),
    decreases fuel, size_seq(tys_view(v@).subrange(i as int, v@.len() as int)), 1nat,
{
    proof {
        lemma_tys_view_len(v@);
    }
    let ghost suffix = tys_view(v@).subrange(i as int, v@.len() as int);
    if i == v.len() {
        let out: Vec<Ty> = Vec::new();
        proof {
            assert(tys_view(out@) =~= Seq::<TyV>::empty());
            assert(suffix =~= Seq::<TyV>::empty());
        }
        Ok(out)
    } else {
        proof {
            lemma_tys_view_index(v@, i as int);
            lemma_size_seq_elem(suffix, 0);
            lemma_size_pos(suffix[0]);
            assert(suffix[0] == v@[i as int]@);
            assert(suffix.subrange(1, suffix.len() as int) =~= tys_view(v@).subrange(
                i + 1,
                v@.len() as int,
            ));
        }
        let ct = canon_go(Clo { it: v[i].dup(), env: env.dup() }, st, fuel);
        match ct {
            Err(e) => Err(e),
            Ok(t) => {
                let rest = canon_list(v, i + 1, env, st, fuel);
                match rest {
                    Err(e) => Err(e),
                    Ok(mut out) => {
                        let ghost out_before = out@;
                        out.insert(0, t);
                        proof {
                            lemma_tys_view_len(out_before);
                            lemma_tys_view_len(out@);
                            assert forall|j: int| 0 <= j < out@.len() implies #[trigger] tys_view(
                                out@,
                            )[j] == (seq![out@[0]@] + tys_view(out_before))[j] by {
                                lemma_tys_view_index(out@, j);
                                if j > 0 {
                                    lemma_tys_view_index(out_before, j - 1);
                                }
                            }
                            assert(tys_view(out@) =~= seq![out@[0]@] + tys_view(out_before));
                        }
                        Ok(out)
                    },
                }
            },
        }
    }
}

/// Canonicalize each component of `v` from position `i` on, keeping names.
fn canon_comps(v: &Vec<(Name, Ty)>, i: usize, env: &Env, st: &UnifStore, fuel: u64) -> (r: Result<
    Vec<(Name, Ty)>,
    TyErr,
>)
    requires
        i <= v@.len(),
    ensures
        ({
            let s = canon_pairs(
                pairs_view(v@).subrange(i as int, v@.len() as int),
                env@,
                st@.entries,
                fuel as nat,
            );
            match r {
                Ok(out) => s == Ok::<Seq<(NameV, TyV)>, TyErrV>(pairs_view(out@)),
                Err(e) => s == Err::<Seq<(NameV, TyV)>, TyErrV>(e@),
            }
        }),
    decreases fuel, size_pairs(pairs_view(v@).subrange(i as int, v@.len() as int)), 1nat,
{
    proof {
        lemma_pairs_view_len(v@);
    }
    let ghost suffix = pairs_view(v@).subrange(i as int, v@.len() as int);
    if i == v.len() {
        let out: Vec<(Name, Ty)> = Vec::new();
        proof {
            assert(pairs_view(out@) =~= Seq::<(NameV, TyV)>::empty());
            assert(suffix =~= Seq::<(NameV, TyV)>::empty());
        }
        Ok(out)
    } else {
        proof {
            lemma_pairs_view_index(v@, i as int);
            lemma_size_pairs_elem(suffix, 0);
            lemma_size_pos(suffix[0].1);
            assert(suffix[0] == (v@[i as int].0@, v@[i as int].1@));
            assert(suffix.subrange(1, suffix.len() as int) =~= pairs_view(v@).subrange(
                i + 1,
                v@.len() as int,
            ));
        }
        let ct = canon_go(Clo { it: v[i].1.dup(), env: env.dup() }, st, fuel);
        match ct {
            Err(e) => Err(e),
            Ok(t) => {
                let rest = canon_comps(v, i + 1, env, st, fuel);
                match rest {
                    Err(e) => Err(e),
                    Ok(mut out) => {
                        let ghost out_before = out@;
                        out.insert(0, (v[i].0.dup(), t));
                        proof {
                            lemma_pairs_view_len(out_before);
                            lemma_pairs_view_len(out@);
                            assert forall|j: int| 0 <= j < out@.len() implies #[trigger] pairs_view(
                                out@,
                            )[j] == (seq![(out@[0].0@, out@[0].1@)] + pairs_view(out_before))[j] by {
                                lemma_pairs_view_index(out@, j);
                                if j > 0 {
                                    lemma_pairs_view_index(out_before, j - 1);
                                }
                            }
                            assert(pairs_view(out@) =~= seq![(out@[0].0@, out@[0].1@)]
                                + pairs_view(out_before));
                        }
                        Ok(out)
                    },
                }
            },
        }
    }
}

/// Canonicalize each arm of `v` from position `i` on, keeping arm names.
fn canon_arms_x(
    v: &Vec<(Name, Vec<Ty>)>,
    i: usize,
    env: &Env,
    st: &UnifStore,
    fuel: u64,
) -> (r: Result<Vec<(Name, Vec<Ty>)>, TyErr>)
    requires
        i <= v@.len(),
    ensures
        ({
            let s = canon_arms(
                arms_view(v@).subrange(i as int, v@.len() as int),
                env@,
                st@.entries,
                fuel as nat,
            );
            match r {
                Ok(out) => s == Ok::<Seq<(NameV, Seq<TyV>)>, TyErrV>(arms_view(out@)),
                Err(e) => s == Err::<Seq<(NameV, Seq<TyV>)>, TyErrV>(e@),
            }
        }),
    decreases fuel, size_arms(arms_view(v@).subrange(i as int, v@.len() as int)), 2nat,
{
    proof {
        lemma_arms_view_len(v@);
    }
    let ghost suffix = arms_view(v@).subrange(i as int, v@.len() as int);
    if i == v.len() {
        let out: Vec<(Name, Vec<Ty>)> = Vec::new();
        proof {
            assert(arms_view(out@) =~= Seq::<(NameV, Seq<TyV>)>::empty());
            assert(suffix =~= Seq::<(NameV, Seq<TyV>)>::empty());
        }
        Ok(out)
    } else {
        proof {
            lemma_arms_view_index(v@, i as int);
            lemma_size_arms_elem(suffix, 0);
            assert(suffix[0] == (v@[i as int].0@, tys_view(v@[i as int].1@)));
            assert(suffix.subrange(1, suffix.len() as int) =~= arms_view(v@).subrange(
                i + 1,
                v@.len() as int,
            ));
            lemma_tys_view_len(v@[i as int].1@);
            assert(tys_view(v@[i as int].1@).subrange(
                0,
                v@[i as int].1@.len() as int,
            ) =~= tys_view(v@[i as int].1@));
        }
        let ct = canon_list(&v[i].1, 0, env, st, fuel);
        match ct {
            Err(e) => Err(e),
            Ok(ccomps) => {
                let rest = canon_arms_x(v, i + 1, env, st, fuel);
                match rest {
                    Err(e) => Err(e),
                    Ok(mut out) => {
                        let ghost out_before = out@;
                        out.insert(0, (v[i].0.dup(), ccomps));
                        proof {
                            lemma_arms_view_len(out_before);
                            lemma_arms_view_len(out@);
                            assert forall|j: int| 0 <= j < out@.len() implies #[trigger] arms_view(
                                out@,
                            )[j] == (seq![(out@[0].0@, tys_view(out@[0].1@))] + arms_view(
                                out_before,
                            ))[j] by {
                                lemma_arms_view_index(out@, j);
                                if j > 0 {
                                    lemma_arms_view_index(out_before, j - 1);
                                }
                            }
                            assert(arms_view(out@) =~= seq![(out@[0].0@, tys_view(out@[0].1@))]
                                + arms_view(out_before));
                        }
                        Ok(out)
                    },
                }
            },
        }
    }
}

/// Produce the normal form of a type for equality comparison and display:
/// all variable references and recorded placeholders pushed as far as they
/// go, with mu-protected variables kept by name. Fails with `UnboundName` on
/// a placeholder the store does not determine; the store is never mutated.
pub fn canonicalize(t: &Ty, env: &Env, unif: &UnifStore) -> (r: Result<Ty, TyErr>)
    ensures
        ({
            let s = canon(
                CloV { it: t@, env: env@ },
                unif@.entries,
                DEPTH_LIMIT as nat,
            );
            match r {
                Ok(u) => s == Ok::<TyV, TyErrV>(u@),
                Err(e) => s == Err::<TyV, TyErrV>(e@),
            }
        }),
{
    canon_go(Clo { it: t.dup(), env: env.dup() }, unif, DEPTH_LIMIT)
}

} // verus!

//! The resolver: pushes a closure as far as it can go.
//!
//! Resolution repeatedly applies the first matching rule until none applies:
//! a variable reference bound in the environment to a different term is
//! replaced by that term (a variable bound to itself is mu-protected and left
//! alone); a type application whose operator resolves to a `forall` is
//! expanded by substituting the already-resolved arguments into its body,
//! while one whose operator resolves to a protected variable is rebuilt with
//! resolved arguments and left; an underdetermined placeholder recorded in
//! the unification store is replaced by its recorded closure. Resolution
//! never mutates the store.
//!
//! A `forall` applied to the wrong number of arguments is a kind error: it
//! marks malformed input from an earlier phase and ends the whole check. The
//! recursion budget guards against divergent inputs (an environment whose
//! reference chains cycle, or a self-applying type application): exceeding it
//! also ends the check.

use vstd::prelude::*;

use crate::env::store_find;
use crate::env::Clo;
use crate::env::CloV;
use crate::env::Env;
use crate::env::EnvV;
use crate::env::env_find;
use crate::env::UnifStore;
use crate::names::Name;
use crate::names::NameV;
use crate::subst::subst;
use crate::subst::apply_subst;
use crate::terms::lemma_size_pos;
use crate::terms::lemma_size_seq_elem;
use crate::terms::lemma_tys_view_index;
use crate::terms::lemma_tys_view_len;
use crate::terms::names_view;
use crate::terms::size;
use crate::terms::size_seq;
use crate::terms::tys_view;
use crate::terms::Ty;
use crate::terms::TyErr;
use crate::terms::TyErrV;
use crate::terms::TyV;

verus! {

/// The engine's recursion budget: the divergence guard. Well-formed types
/// resolve and compare within a small depth; a walk that exceeds this budget
/// reports `DepthExceeded` instead of looping or overrunning the stack.
pub const DEPTH_LIMIT: u64 = 256;

/// The substitution mapping each parameter to the corresponding argument.
pub open spec fn mk_subst(params: Seq<NameV>, args: Seq<TyV>) -> EnvV {
    Seq::new(params.len(), |i: int| (params[i], args[i]))
}

/// The model of resolution, with a recursion budget.
pub open spec fn resolve_r(c: CloV, st: Seq<(NameV, CloV)>, fuel: nat) -> Result<CloV, TyErrV>
    decreases fuel, size(c.it), 0nat,
{
    match c.it {
        TyV::Var(n) => match env_find(c.env, n) {
            None => Ok(c),
            Some(t) => if t == TyV::Var(n) {
                Ok(c)
            } else if fuel == 0 {
                Err(TyErrV::DepthExceeded)
            } else {
                resolve_r(CloV { it: t, env: c.env }, st, (fuel - 1) as nat)
            },
        },
        TyV::Undet(id) => match store_find(st, id) {
            None => Ok(c),
            Some(c2) => if fuel == 0 {
                Err(TyErrV::DepthExceeded)
            } else {
                resolve_r(c2, st, (fuel - 1) as nat)
            },
        },
        TyV::Apply { rator, args } => match resolve_r(
            CloV { it: *rator, env: c.env },
            st,
            fuel,
        ) {
            Err(e) => Err(e),
            Ok(rc) => match resolve_each(args, c.env, st, fuel) {
                Err(e) => Err(e),
                Ok(rargs) => match rc.it {
                    TyV::Var(rv) => {
                        let rebuilt = TyV::Apply { rator: Box::new(TyV::Var(rv)), args: rargs };
                        if rebuilt == c.it {
                            Ok(c)
                        } else if fuel == 0 {
                            Err(TyErrV::DepthExceeded)
                        } else {
                            resolve_r(CloV { it: rebuilt, env: rc.env }, st, (fuel - 1) as nat)
                        }
                    },
                    TyV::Forall { params, body } => if params.len() != rargs.len() {
                        Err(TyErrV::ArityMismatch(params.len(), rargs.len()))
                    } else if fuel == 0 {
                        Err(TyErrV::DepthExceeded)
                    } else {
                        resolve_r(
                            CloV { it: subst(*body, mk_subst(params, rargs)), env: rc.env },
                            st,
                            (fuel - 1) as nat,
                        )
                    },
                    // A broken type application; left for a later structural
                    // check to reject.
                    _ => Ok(c),
                },
            },
        },
        _ => Ok(c),
    }
}

/// The model of resolving each term of a list independently, keeping the
/// resolved terms.
pub open spec fn resolve_each(args: Seq<TyV>, env: EnvV, st: Seq<(NameV, CloV)>, fuel: nat) -> Result<
    Seq<TyV>,
    TyErrV,
>
    decreases fuel, size_seq(args), 1nat,
{
    if args.len() == 0 {
        Ok(Seq::empty())
    } else {
        proof {
            lemma_size_seq_elem(args, 0);
            lemma_size_pos(args[0]);
        }
        match resolve_r(CloV { it: args[0], env }, st, fuel) {
            Err(e) => Err(e),
            Ok(rc) => match resolve_each(args.subrange(1, args.len() as int), env, st, fuel) {
                Err(e) => Err(e),
                Ok(rest) => Ok(seq![rc.it] + rest),
            },
        }
    }
}

/// Build the substitution sending each parameter to its argument.
pub(crate) fn make_subst(params: &Vec<Name>, args: &Vec<Ty>) -> (r: Env)
    requires
        params@.len() == args@.len(),
    ensures
        r@ == mk_subst(names_view(params@), tys_view(args@)),
{
    let mut r = Env::new();
    let mut i: usize = 0;
    while i < params.len()
        invariant
            i <= params.len(),
            params@.len() == args@.len(),
            r@ == mk_subst(names_view(params@), tys_view(args@)).subrange(0, i as int),
        decreases params.len() - i,
    {
        proof {
            lemma_tys_view_len(args@);
            lemma_tys_view_index(args@, i as int);
            assert(mk_subst(names_view(params@), tys_view(args@)).subrange(0, i as int).push(
                (params@[i as int]@, args@[i as int]@),
            ) =~= mk_subst(names_view(params@), tys_view(args@)).subrange(0, i + 1));
        }
        r = r.set(params[i].dup(), args[i].dup());
        i = i + 1;
    }
    proof {
        lemma_tys_view_len(args@);
        assert(mk_subst(names_view(params@), tys_view(args@)).subrange(
            0,
            params@.len() as int,
        ) =~= mk_subst(names_view(params@), tys_view(args@)));
    }
    r
}

/// Resolution with an explicit budget.
pub fn resolve_go(c: Clo, st: &UnifStore, fuel: u64) -> (r: Result<Clo, TyErr>)
    ensures
        ({
            let s = resolve_r(c@, st@.entries, fuel as nat);
            match r {
                Ok(rc) => s == Ok::<CloV, TyErrV>(rc@),
                Err(e) => s == Err::<CloV, TyErrV>(e@),
            }
        }),
    decreases fuel, size(c@.it), 0nat,
{
    let ghost s0 = resolve_r(c@, st@.entries, fuel as nat);
    match &c.it {
        Ty::Var(n) => {
            let found = c.env.find(n);
            match found {
                None => {
                    proof {
                        assert(s0 == Ok::<CloV, TyErrV>(c@));
                    }
                    Ok(c)
                },
                Some(t) => {
                    let prot = match t {
                        Ty::Var(m) => m.same(n),
                        _ => false,
                    };
                    if prot {
                        proof {
                            assert(s0 == Ok::<CloV, TyErrV>(c@));
                        }
                        Ok(c)
                    } else if fuel == 0 {
                        proof {
                            assert(s0 == Err::<CloV, TyErrV>(TyErrV::DepthExceeded));
                        }
                        Err(TyErr::DepthExceeded)
                    } else {
                        let t2 = t.dup();
                        let rr = resolve_go(Clo { it: t2, env: c.env }, st, fuel - 1);
                        proof {
                            match &rr {
                                Ok(rc) => assert(s0 == Ok::<CloV, TyErrV>(rc@)),
                                Err(e) => assert(s0 == Err::<CloV, TyErrV>(e@)),
                            }
                        }
                        rr
                    }
                },
            }
        },
        Ty::Undet(id) => {
            let found = st.find(id);
            match found {
                None => {
                    proof {
                        assert(s0 == Ok::<CloV, TyErrV>(c@));
                    }
                    Ok(c)
                },
                Some(c2) => {
                    if fuel == 0 {
                        proof {
                            assert(s0 == Err::<CloV, TyErrV>(TyErrV::DepthExceeded));
                        }
                        Err(TyErr::DepthExceeded)
                    } else {
                        let c2d = c2.dup();
                        let rr = resolve_go(c2d, st, fuel - 1);
                        proof {
                            match &rr {
                                Ok(rc) => assert(s0 == Ok::<CloV, TyErrV>(rc@)),
                                Err(e) => assert(s0 == Err::<CloV, TyErrV>(e@)),
                            }
                        }
                        rr
                    }
                },
            }
        },
        Ty::Apply { rator, args } => {
            proof {
                lemma_size_pos((&**rator)@);
                lemma_tys_view_len(args@);
                assert(tys_view(args@).subrange(0, args@.len() as int) =~= tys_view(args@));
            }
            let rr = resolve_go(Clo { it: (&**rator).dup(), env: c.env.dup() }, st, fuel);
            match rr {
                Err(e) => Err(e),
                Ok(rc) => {
                    let ra = resolve_args(args, 0, &c.env, st, fuel);
                    match ra {
                        Err(e) => Err(e),
                        Ok(rargs) => match &rc.it {
                            Ty::Var(rv) => {
                                let inner = Ty::Var(rv.dup());
                                proof {
                                    assert(inner@ == TyV::Var(rv@));
                                }
                                let rebuilt = Ty::Apply {
                                    rator: Box::new(inner),
                                    args: rargs,
                                };
                                proof {
                                    assert(rebuilt@ == TyV::Apply {
                                        rator: Box::new(TyV::Var(rv@)),
                                        args: tys_view(rebuilt->Apply_args@),
                                    });
                                }
                                if rebuilt.same_ty(&c.it) {
                                    Ok(c)
                                } else if fuel == 0 {
                                    Err(TyErr::DepthExceeded)
                                } else {
                                    resolve_go(Clo { it: rebuilt, env: rc.env }, st, fuel - 1)
                                }
                            },
                            Ty::Forall { params, body } => {
                                if params.len() != rargs.len() {
                                    proof {
                                        lemma_tys_view_len(rargs@);
                                    }
                                    Err(TyErr::ArityMismatch(params.len(), rargs.len()))
                                } else if fuel == 0 {
                                    proof {
                                        lemma_tys_view_len(rargs@);
                                        assert(s0 == Err::<CloV, TyErrV>(TyErrV::DepthExceeded));
                                    }
                                    Err(TyErr::DepthExceeded)
                                } else {
                                    proof {
                                        lemma_tys_view_len(rargs@);
                                    }
                                    let m = make_subst(params, &rargs);
                                    let expanded = apply_subst(&**body, &m);
                                    resolve_go(Clo { it: expanded, env: rc.env }, st, fuel - 1)
                                }
                            },
                            _ => Ok(c),
                        },
                    }
                },
            }
        },
        Ty::Base(_) => Ok(c),
        Ty::Func { .. } => Ok(c),
        Ty::Forall { .. } => Ok(c),
        Ty::Mu { .. } => Ok(c),
        Ty::Tuple(_) => Ok(c),
        Ty::Struct(_) => Ok(c),
        Ty::Enum(_) => Ok(c),
        Ty::DotDotDot { .. } => Ok(c),
    }
}

/// Resolve each term of `args` from position `i` on, under one environment.
fn resolve_args(args: &Vec<Ty>, i: usize, env: &Env, st: &UnifStore, fuel: u64) -> (r: Result<
    Vec<Ty>,
    TyErr,
>)
    requires
        i <= args@.len(),
    ensures
        ({
            let s = resolve_each(
                tys_view(args@).subrange(i as int, args@.len() as int),
                env@,
                st@.entries,
                fuel as nat,
            );
            match r {
                Ok(out) => s == Ok::<Seq<TyV>, TyErrV>(tys_view(out@)),
                Err(e) => s == Err::<Seq<TyV>, TyErrV>(e@),
            }
        }),
    decreases fuel, size_seq(tys_view(args@).subrange(i as int, args@.len() as int)), 1nat,
{
    proof {
        lemma_tys_view_len(args@);
    }
    let ghost suffix = tys_view(args@).subrange(i as int, args@.len() as int);
    if i == args.len() {
        let out: Vec<Ty> = Vec::new();
        proof {
            assert(tys_view(out@) =~= Seq::<TyV>::empty());
            assert(suffix =~= Seq::<TyV>::empty());
        }
        Ok(out)
    } else {
        proof {
            lemma_tys_view_index(args@, i as int);
            lemma_size_seq_elem(suffix, 0);
            lemma_size_pos(suffix[0]);
            assert(suffix[0] == args@[i as int]@);
            assert(suffix.subrange(1, suffix.len() as int) =~= tys_view(args@).subrange(
                i + 1,
                args@.len() as int,
            ));
        }
        let rr = resolve_go(Clo { it: args[i].dup(), env: env.dup() }, st, fuel);
        match rr {
            Err(e) => Err(e),
            Ok(rc) => {
                let rest = resolve_args(args, i + 1, env, st, fuel);
                match rest {
                    Err(e) => Err(e),
                    Ok(mut out) => {
                        let ghost out_before = out@;
                        out.insert(0, rc.it);
                        proof {
                            lemma_tys_view_len(out_before);
                            lemma_tys_view_len(out@);
                            assert forall|j: int| 0 <= j < out@.len() implies #[trigger] tys_view(
                                out@,
                            )[j] == (seq![rc.it@] + tys_view(out_before))[j] by {
                                lemma_tys_view_index(out@, j);
                                if j > 0 {
                                    lemma_tys_view_index(out_before, j - 1);
                                }
                            }
                            assert(tys_view(out@) =~= seq![rc.it@] + tys_view(out_before));
                        }
                        Ok(out)
                    },
                }
            },
        }
    }
}

/// Follow variable references through the closure's environment and
/// underdetermined placeholders through the unification store until nothing
/// can move further, expanding delayed type applications against `forall`
/// definitions along the way. The store is never mutated.
///
/// A kind error (a `forall` applied to the wrong number of arguments) and an
/// exceeded recursion budget are fatal: they mark malformed or divergent
/// input, not a type error in the checked program.
pub fn resolve(clo: Clo, unif: &UnifStore) -> (r: Result<Clo, TyErr>)
    ensures
        ({
            let s = resolve_r(clo@, unif@.entries, DEPTH_LIMIT as nat);
            match r {
                Ok(rc) => s == Ok::<CloV, TyErrV>(rc@),
                Err(e) => s == Err::<CloV, TyErrV>(e@),
            }
        }),
{
    resolve_go(clo, unif, DEPTH_LIMIT)
}

} // verus!

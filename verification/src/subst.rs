//! Substitution of a name-to-term mapping into a type term.
//!
//! Substitution replaces free variable references whose names the mapping
//! binds. Binders (`forall` and `mu` parameters) shadow the mapping for their
//! bodies. A splice node's drivers are names rather than sub-terms: a mapping
//! that renames a driver to another variable follows it through; any other
//! mapping leaves the driver name in place.

use vstd::prelude::*;

use crate::env::env_find;
use crate::env::Env;
use crate::env::EnvV;
use crate::names::Name;
use crate::names::NameV;
use crate::terms::arm_view;
use crate::terms::arms_view;
use crate::terms::dup_names;
use crate::terms::lemma_arms_view_index;
use crate::terms::lemma_arms_view_len;
use crate::terms::lemma_pairs_view_index;
use crate::terms::lemma_pairs_view_len;
use crate::terms::lemma_size_arms_elem;
use crate::terms::lemma_size_pairs_elem;
use crate::terms::lemma_size_pos;
use crate::terms::lemma_size_seq_elem;
use crate::terms::lemma_tys_view_index;
use crate::terms::lemma_tys_view_len;
use crate::terms::names_view;
use crate::terms::pair_view;
use crate::terms::pairs_view;
use crate::terms::size;
use crate::terms::size_arms;
use crate::terms::size_pairs;
use crate::terms::size_seq;
use crate::terms::tys_view;
use crate::terms::Ty;
use crate::terms::TyV;

verus! {

/// A mapping extended so that the given binder names shadow it: each binder
/// name is sent to itself.
pub open spec fn shadow(m: EnvV, params: Seq<NameV>) -> EnvV {
    m + Seq::new(params.len(), |i: int| (params[i], TyV::Var(params[i])))
}

/// What a splice driver name becomes under a mapping: renamed when the
/// mapping sends it to another variable, otherwise unchanged.
pub open spec fn rename_name(m: EnvV, d: NameV) -> NameV {
    match env_find(m, d) {
        Some(TyV::Var(d2)) => d2,
        _ => d,
    }
}

pub open spec fn rename_names(m: EnvV, ds: Seq<NameV>) -> Seq<NameV> {
    Seq::new(ds.len(), |i: int| rename_name(m, ds[i]))
}

/// The model of substitution: replace each free variable reference bound by
/// the mapping with its image.
pub open spec fn subst(t: TyV, m: EnvV) -> TyV
    decreases size(t), 0nat,
{
    match t {
        TyV::Var(n) => match env_find(m, n) {
            Some(u) => u,
            None => TyV::Var(n),
        },
        TyV::Base(n) => TyV::Base(n),
        TyV::Undet(n) => TyV::Undet(n),
        TyV::Func { params, ret } => TyV::Func {
            params: subst_seq(params, m),
            ret: Box::new(subst(*ret, m)),
        },
        TyV::Forall { params, body } => TyV::Forall {
            params,
            body: Box::new(subst(*body, shadow(m, params))),
        },
        TyV::Mu { params, body } => TyV::Mu {
            params,
            body: Box::new(subst(*body, shadow(m, params))),
        },
        TyV::Apply { rator, args } => TyV::Apply {
            rator: Box::new(subst(*rator, m)),
            args: subst_seq(args, m),
        },
        TyV::Tuple(comps) => TyV::Tuple(subst_seq(comps, m)),
        TyV::Struct(pairs) => TyV::Struct(subst_pairs(pairs, m)),
        TyV::Enum(arms) => TyV::Enum(subst_arms(arms, m)),
        TyV::DotDotDot { drivers, body } => TyV::DotDotDot {
            drivers: rename_names(m, drivers),
            body: Box::new(subst(*body, m)),
        },
    }
}

pub open spec fn subst_seq(s: Seq<TyV>, m: EnvV) -> Seq<TyV>
    decreases size_seq(s), 1nat,
{
    if s.len() == 0 {
        Seq::empty()
    } else {
        proof {
            lemma_size_seq_elem(s, 0);
        }
        seq![subst(s[0], m)] + subst_seq(s.subrange(1, s.len() as int), m)
    }
}

pub open spec fn subst_pairs(s: Seq<(NameV, TyV)>, m: EnvV) -> Seq<(NameV, TyV)>
    decreases size_pairs(s), 1nat,
{
    if s.len() == 0 {
        Seq::empty()
    } else {
        proof {
            lemma_size_pairs_elem(s, 0);
        }
        seq![(s[0].0, subst(s[0].1, m))] + subst_pairs(s.subrange(1, s.len() as int), m)
    }
}

pub open spec fn subst_arms(s: Seq<(NameV, Seq<TyV>)>, m: EnvV) -> Seq<(NameV, Seq<TyV>)>
    decreases size_arms(s), 2nat,
{
    if s.len() == 0 {
        Seq::empty()
    } else {
        proof {
            lemma_size_arms_elem(s, 0);
        }
        seq![(s[0].0, subst_seq(s[0].1, m))] + subst_arms(s.subrange(1, s.len() as int), m)
    }
}

/// A substituted list is as long as the original.
pub broadcast proof fn lemma_subst_seq_len(s: Seq<TyV>, m: EnvV)
    ensures
        (#[trigger] subst_seq(s, m)).len() == s.len(),
    decreases s.len(),
{
    if s.len() > 0 {
        lemma_subst_seq_len(s.subrange(1, s.len() as int), m);
    }
}

/// Substitution into a list acts elementwise.
pub broadcast proof fn lemma_subst_seq_index(s: Seq<TyV>, m: EnvV, i: int)
    requires
        0 <= i < s.len(),
    ensures
        #[trigger] subst_seq(s, m)[i] == subst(s[i], m),
    decreases s.len(),
{
    lemma_subst_seq_len(s, m);
    if i > 0 {
        lemma_subst_seq_index(s.subrange(1, s.len() as int), m, i - 1);
    }
}

/// A substituted component list is as long as the original.
pub broadcast proof fn lemma_subst_pairs_len(s: Seq<(NameV, TyV)>, m: EnvV)
    ensures
        (#[trigger] subst_pairs(s, m)).len() == s.len(),
    decreases s.len(),
{
    if s.len() > 0 {
        lemma_subst_pairs_len(s.subrange(1, s.len() as int), m);
    }
}

/// Substitution into a component list acts elementwise.
pub broadcast proof fn lemma_subst_pairs_index(s: Seq<(NameV, TyV)>, m: EnvV, i: int)
    requires
        0 <= i < s.len(),
    ensures
        #[trigger] subst_pairs(s, m)[i] == (s[i].0, subst(s[i].1, m)),
    decreases s.len(),
{
    lemma_subst_pairs_len(s, m);
    if i > 0 {
        lemma_subst_pairs_index(s.subrange(1, s.len() as int), m, i - 1);
    }
}

/// A substituted arm list is as long as the original.
pub broadcast proof fn lemma_subst_arms_len(s: Seq<(NameV, Seq<TyV>)>, m: EnvV)
    ensures
        (#[trigger] subst_arms(s, m)).len() == s.len(),
    decreases s.len(),
{
    if s.len() > 0 {
        lemma_subst_arms_len(s.subrange(1, s.len() as int), m);
    }
}

/// Substitution into an arm list acts elementwise.
pub broadcast proof fn lemma_subst_arms_index(s: Seq<(NameV, Seq<TyV>)>, m: EnvV, i: int)
    requires
        0 <= i < s.len(),
    ensures
        #[trigger] subst_arms(s, m)[i] == (s[i].0, subst_seq(s[i].1, m)),
    decreases s.len(),
{
    lemma_subst_arms_len(s, m);
    if i > 0 {
        lemma_subst_arms_index(s.subrange(1, s.len() as int), m, i - 1);
    }
}

/// The mapping extended so that the given binder names shadow it.
fn shadow_env(m: &Env, params: &Vec<Name>) -> (r: Env)
    ensures
        r@ == shadow(m@, names_view(params@)),
{
    let mut r = m.dup();
    let mut i: usize = 0;
    while i < params.len()
        invariant
            i <= params.len(),
            r@ == shadow(m@, names_view(params@)).subrange(
                0,
                m@.len() + i as int,
            ),
        decreases params.len() - i,
    {
        proof {
            assert(shadow(m@, names_view(params@)).subrange(0, m@.len() + i as int).push(
                (params@[i as int]@, TyV::Var(params@[i as int]@)),
            ) =~= shadow(m@, names_view(params@)).subrange(0, m@.len() + i + 1));
        }
        let p = params[i].dup();
        let v = Ty::Var(params[i].dup());
        r = r.set(p, v);
        i = i + 1;
    }
    proof {
        assert(shadow(m@, names_view(params@)).subrange(
            0,
            m@.len() + params@.len() as int,
        ) =~= shadow(m@, names_view(params@)));
    }
    r
}

/// The splice drivers after renaming through the mapping.
fn rename_drivers(m: &Env, ds: &Vec<Name>) -> (r: Vec<Name>)
    ensures
        names_view(r@) == rename_names(m@, names_view(ds@)),
{
    let mut r: Vec<Name> = Vec::new();
    let mut i: usize = 0;
    while i < ds.len()
        invariant
            i <= ds.len(),
            r@.len() == i,
            forall|j: int| 0 <= j < i ==> r@[j]@ == rename_name(m@, ds@[j]@),
        decreases ds.len() - i,
    {
        let renamed = match m.find(&ds[i]) {
            Some(t) => match t {
                Ty::Var(d2) => d2.dup(),
                _ => ds[i].dup(),
            },
            None => ds[i].dup(),
        };
        r.push(renamed);
        i = i + 1;
    }
    proof {
        assert(names_view(r@) =~= rename_names(m@, names_view(ds@)));
    }
    r
}

/// Substitute the mapping into a term.
pub fn apply_subst(t: &Ty, m: &Env) -> (r: Ty)
    ensures
        r@ == subst(t@, m@),
    decreases size(t@), 0nat,
{
    match t {
        Ty::Var(n) => match m.find(n) {
            Some(u) => u.dup(),
            None => Ty::Var(n.dup()),
        },
        Ty::Base(n) => Ty::Base(n.dup()),
        Ty::Undet(n) => Ty::Undet(n.dup()),
        Ty::Func { params, ret } => {
            proof {
                lemma_size_pos((&**ret)@);
            }
            Ty::Func {
                params: apply_subst_tys(params, m),
                ret: Box::new(apply_subst(&**ret, m)),
            }
        },
        Ty::Forall { params, body } => {
            let m2 = shadow_env(m, params);
            Ty::Forall {
                params: dup_names(params),
                body: Box::new(apply_subst(&**body, &m2)),
            }
        },
        Ty::Mu { params, body } => {
            let m2 = shadow_env(m, params);
            Ty::Mu { params: dup_names(params), body: Box::new(apply_subst(&**body, &m2)) }
        },
        Ty::Apply { rator, args } => {
            proof {
                lemma_size_pos((&**rator)@);
            }
            Ty::Apply {
                rator: Box::new(apply_subst(&**rator, m)),
                args: apply_subst_tys(args, m),
            }
        },
        Ty::Tuple(comps) => Ty::Tuple(apply_subst_tys(comps, m)),
        Ty::Struct(pairs) => Ty::Struct(apply_subst_pairs(pairs, m)),
        Ty::Enum(arms) => Ty::Enum(apply_subst_arms(arms, m)),
        Ty::DotDotDot { drivers, body } => Ty::DotDotDot {
            drivers: rename_drivers(m, drivers),
            body: Box::new(apply_subst(&**body, m)),
        },
    }
}

/// Substitute the mapping into every term of a list.
pub fn apply_subst_tys(v: &Vec<Ty>, m: &Env) -> (r: Vec<Ty>)
    ensures
        tys_view(r@) == subst_seq(tys_view(v@), m@),
    decreases size_seq(tys_view(v@)), 1nat,
{
    let mut r: Vec<Ty> = Vec::new();
    let mut i: usize = 0;
    while i < v.len()
        invariant
            i <= v.len(),
            r@.len() == i,
            forall|j: int| 0 <= j < i ==> r@[j]@ == subst(v@[j]@, m@),
        decreases v.len() - i,
    {
        proof {
            lemma_tys_view_index(v@, i as int);
            lemma_tys_view_len(v@);
            lemma_size_seq_elem(tys_view(v@), i as int);
        }
        r.push(apply_subst(&v[i], m));
        i = i + 1;
    }
    proof {
        lemma_tys_view_len(v@);
        lemma_tys_view_len(r@);
        lemma_subst_seq_len(tys_view(v@), m@);
        assert forall|j: int| 0 <= j < v@.len() implies tys_view(r@)[j] == subst_seq(
            tys_view(v@),
            m@,
        )[j] by {
            lemma_tys_view_index(r@, j);
            lemma_tys_view_index(v@, j);
            lemma_subst_seq_index(tys_view(v@), m@, j);
        }
        assert(tys_view(r@) =~= subst_seq(tys_view(v@), m@));
    }
    r
}

/// Substitute the mapping into every component of a struct's component list.
pub fn apply_subst_pairs(v: &Vec<(Name, Ty)>, m: &Env) -> (r: Vec<(Name, Ty)>)
    ensures
        pairs_view(r@) == subst_pairs(pairs_view(v@), m@),
    decreases size_pairs(pairs_view(v@)), 1nat,
{
    let mut r: Vec<(Name, Ty)> = Vec::new();
    let mut i: usize = 0;
    while i < v.len()
        invariant
            i <= v.len(),
            r@.len() == i,
            forall|j: int|
                0 <= j < i ==> #[trigger] pair_view(r@[j]) == (
                    v@[j].0@,
                    subst(v@[j].1@, m@),
                ),
        decreases v.len() - i,
    {
        proof {
            lemma_pairs_view_index(v@, i as int);
            lemma_pairs_view_len(v@);
            lemma_size_pairs_elem(pairs_view(v@), i as int);
        }
        let p = &v[i];
        r.push((p.0.dup(), apply_subst(&p.1, m)));
        i = i + 1;
    }
    proof {
        lemma_pairs_view_len(v@);
        lemma_pairs_view_len(r@);
        lemma_subst_pairs_len(pairs_view(v@), m@);
        assert forall|j: int| 0 <= j < v@.len() implies pairs_view(r@)[j] == subst_pairs(
            pairs_view(v@),
            m@,
        )[j] by {
            lemma_pairs_view_index(r@, j);
            lemma_pairs_view_index(v@, j);
            lemma_subst_pairs_index(pairs_view(v@), m@, j);
        }
        assert(pairs_view(r@) =~= subst_pairs(pairs_view(v@), m@));
    }
    r
}

/// Substitute the mapping into every arm of an enum's arm list.
pub fn apply_subst_arms(v: &Vec<(Name, Vec<Ty>)>, m: &Env) -> (r: Vec<(Name, Vec<Ty>)>)
    ensures
        arms_view(r@) == subst_arms(arms_view(v@), m@),
    decreases size_arms(arms_view(v@)), 2nat,
{
    let mut r: Vec<(Name, Vec<Ty>)> = Vec::new();
    let mut i: usize = 0;
    while i < v.len()
        invariant
            i <= v.len(),
            r@.len() == i,
            forall|j: int|
                0 <= j < i ==> #[trigger] arm_view(r@[j]) == (
                    v@[j].0@,
                    subst_seq(tys_view(v@[j].1@), m@),
                ),
        decreases v.len() - i,
    {
        proof {
            lemma_arms_view_index(v@, i as int);
            lemma_arms_view_len(v@);
            lemma_size_arms_elem(arms_view(v@), i as int);
        }
        let p = &v[i];
        r.push((p.0.dup(), apply_subst_tys(&p.1, m)));
        i = i + 1;
    }
    proof {
        lemma_arms_view_len(v@);
        lemma_arms_view_len(r@);
        lemma_subst_arms_len(arms_view(v@), m@);
        assert forall|j: int| 0 <= j < v@.len() implies arms_view(r@)[j] == subst_arms(
            arms_view(v@),
            m@,
        )[j] by {
            lemma_arms_view_index(r@, j);
            lemma_arms_view_index(v@, j);
            lemma_subst_arms_index(arms_view(v@), m@, j);
        }
        assert(arms_view(r@) =~= subst_arms(arms_view(v@), m@));
    }
    r
}

} // verus!

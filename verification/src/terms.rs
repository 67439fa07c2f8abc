//! Type terms: the algebraic representation of types, its mathematical model,
//! and the error values the engine reports.
//!
//! A type term is either a variable reference by name or a tagged node. The
//! node constructors are the fixed set the engine walks: base types, function
//! types, universal quantification (`forall`), equi-recursive binders (`mu`),
//! delayed type application, tuples, structs, enums, variadic splice patterns
//! (`dotdotdot`), and the engine's own `underdetermined` placeholder nodes.

use vstd::prelude::*;

use crate::names::Name;
use crate::names::NameV;

verus! {

/// The mathematical model of a type term.
pub enum TyV {
    /// A variable reference. A variable bound to itself in its environment is
    /// "mu-protected": it marks the entry point of a recursive type and is
    /// compared by name, never expanded.
    Var(NameV),
    /// A base type, identified by name alone (`Int`, `Float`, ...).
    Base(NameV),
    /// A function type: parameter types and a return type.
    Func { params: Seq<TyV>, ret: Box<TyV> },
    /// A universally quantified type: `forall params. body`.
    Forall { params: Seq<NameV>, body: Box<TyV> },
    /// An equi-recursive type: `mu params. body`; the parameters are protected
    /// while the body is walked.
    Mu { params: Seq<NameV>, body: Box<TyV> },
    /// A delayed type application of a (usually `forall`) operator to
    /// argument types.
    Apply { rator: Box<TyV>, args: Seq<TyV> },
    /// A tuple of component types.
    Tuple(Seq<TyV>),
    /// A struct: named components, in declaration order.
    Struct(Seq<(NameV, TyV)>),
    /// An enum: arms, each a constructor name with component types.
    Enum(Seq<(NameV, Seq<TyV>)>),
    /// A variadic splice pattern: `...[drivers >> body]...`, matching the
    /// body once per position of whatever sequence it is compared against.
    DotDotDot { drivers: Seq<NameV>, body: Box<TyV> },
    /// An underdetermined type: a unification placeholder, resolved by
    /// looking its name up in the unification store.
    Undet(NameV),
}

/// A type term.
#[derive(Debug, PartialEq)]
pub enum Ty {
    Var(Name),
    Base(Name),
    Func { params: Vec<Ty>, ret: Box<Ty> },
    Forall { params: Vec<Name>, body: Box<Ty> },
    Mu { params: Vec<Name>, body: Box<Ty> },
    Apply { rator: Box<Ty>, args: Vec<Ty> },
    Tuple(Vec<Ty>),
    Struct(Vec<(Name, Ty)>),
    Enum(Vec<(Name, Vec<Ty>)>),
    DotDotDot { drivers: Vec<Name>, body: Box<Ty> },
    Undet(Name),
}

/// The model of a list of names.
pub open spec fn names_view(v: Seq<Name>) -> Seq<NameV> {
    Seq::new(v.len(), |i: int| v[i]@)
}

/// The model of a type term.
pub open spec fn ty_view(t: Ty) -> TyV
    decreases t,
{
    match t {
        Ty::Var(n) => TyV::Var(n@),
        Ty::Base(n) => TyV::Base(n@),
        Ty::Func { params, ret } => {
            proof {
                assert(decreases_to!(t => params));
            }
            TyV::Func { params: tys_view(params@), ret: Box::new(ty_view(*ret)) }
        },
        Ty::Forall { params, body } => TyV::Forall {
            params: names_view(params@),
            body: Box::new(ty_view(*body)),
        },
        Ty::Mu { params, body } => TyV::Mu {
            params: names_view(params@),
            body: Box::new(ty_view(*body)),
        },
        Ty::Apply { rator, args } => {
            proof {
                assert(decreases_to!(t => args));
            }
            TyV::Apply { rator: Box::new(ty_view(*rator)), args: tys_view(args@) }
        },
        Ty::Tuple(comps) => {
            proof {
                assert(decreases_to!(t => comps));
            }
            TyV::Tuple(tys_view(comps@))
        },
        Ty::Struct(pairs) => {
            proof {
                assert(decreases_to!(t => pairs));
            }
            TyV::Struct(pairs_view(pairs@))
        },
        Ty::Enum(arms) => {
            proof {
                assert(decreases_to!(t => arms));
            }
            TyV::Enum(arms_view(arms@))
        },
        Ty::DotDotDot { drivers, body } => TyV::DotDotDot {
            drivers: names_view(drivers@),
            body: Box::new(ty_view(*body)),
        },
        Ty::Undet(n) => TyV::Undet(n@),
    }
}

/// The model of a list of type terms.
pub open spec fn tys_view(v: Seq<Ty>) -> Seq<TyV>
    decreases v,
{
    if v.len() == 0 {
        Seq::empty()
    } else {
        seq![ty_view(v[0])] + tys_view(v.subrange(1, v.len() as int))
    }
}

/// The model of a struct's named components.
pub open spec fn pairs_view(v: Seq<(Name, Ty)>) -> Seq<(NameV, TyV)>
    decreases v,
{
    if v.len() == 0 {
        Seq::empty()
    } else {
        seq![pair_view(v[0])] + pairs_view(v.subrange(1, v.len() as int))
    }
}

pub open spec fn pair_view(p: (Name, Ty)) -> (NameV, TyV)
    decreases p,
{
    (p.0@, ty_view(p.1))
}

/// The model of an enum's arms.
pub open spec fn arms_view(v: Seq<(Name, Vec<Ty>)>) -> Seq<(NameV, Seq<TyV>)>
    decreases v,
{
    if v.len() == 0 {
        Seq::empty()
    } else {
        seq![arm_view(v[0])] + arms_view(v.subrange(1, v.len() as int))
    }
}

pub open spec fn arm_view(p: (Name, Vec<Ty>)) -> (NameV, Seq<TyV>)
    decreases p,
{
    proof {
        assert(decreases_to!(p => p.1));
    }
    (p.0@, tys_view(p.1@))
}

impl View for Ty {
    type V = TyV;

    open spec fn view(&self) -> TyV {
        ty_view(*self)
    }
}

/// A list's model is as long as the list.
pub broadcast proof fn lemma_tys_view_len(v: Seq<Ty>)
    ensures
        (#[trigger] tys_view(v)).len() == v.len(),
    decreases v.len(),
{
    if v.len() > 0 {
        lemma_tys_view_len(v.subrange(1, v.len() as int));
    }
}

/// A list's model is the elementwise model.
pub broadcast proof fn lemma_tys_view_index(v: Seq<Ty>, i: int)
    requires
        0 <= i < v.len(),
    ensures
        #[trigger] tys_view(v)[i] == ty_view(v[i]),
    decreases v.len(),
{
    lemma_tys_view_len(v);
    if i > 0 {
        lemma_tys_view_index(v.subrange(1, v.len() as int), i - 1);
    }
}

/// A component list's model is as long as the list.
pub broadcast proof fn lemma_pairs_view_len(v: Seq<(Name, Ty)>)
    ensures
        (#[trigger] pairs_view(v)).len() == v.len(),
    decreases v.len(),
{
    if v.len() > 0 {
        lemma_pairs_view_len(v.subrange(1, v.len() as int));
    }
}

/// A component list's model is the elementwise model.
pub broadcast proof fn lemma_pairs_view_index(v: Seq<(Name, Ty)>, i: int)
    requires
        0 <= i < v.len(),
    ensures
        #[trigger] pairs_view(v)[i] == pair_view(v[i]),
    decreases v.len(),
{
    lemma_pairs_view_len(v);
    if i > 0 {
        lemma_pairs_view_index(v.subrange(1, v.len() as int), i - 1);
    }
}

/// An arm list's model is as long as the list.
pub broadcast proof fn lemma_arms_view_len(v: Seq<(Name, Vec<Ty>)>)
    ensures
        (#[trigger] arms_view(v)).len() == v.len(),
    decreases v.len(),
{
    if v.len() > 0 {
        lemma_arms_view_len(v.subrange(1, v.len() as int));
    }
}

/// An arm list's model is the elementwise model.
pub broadcast proof fn lemma_arms_view_index(v: Seq<(Name, Vec<Ty>)>, i: int)
    requires
        0 <= i < v.len(),
    ensures
        #[trigger] arms_view(v)[i] == arm_view(v[i]),
    decreases v.len(),
{
    lemma_arms_view_len(v);
    if i > 0 {
        lemma_arms_view_index(v.subrange(1, v.len() as int), i - 1);
    }
}

/// The size of a type term: every term has size at least 1, and every
/// sub-term is strictly smaller than the term holding it. Used as a
/// termination measure for the structural recursions of the engine.
pub open spec fn size(t: TyV) -> nat
    decreases t,
{
    match t {
        TyV::Var(_) => 1,
        TyV::Base(_) => 1,
        TyV::Undet(_) => 1,
        TyV::Func { params, ret } => 1 + size_seq(params) + size(*ret),
        TyV::Forall { params, body } => 1 + size(*body),
        TyV::Mu { params, body } => 1 + size(*body),
        TyV::Apply { rator, args } => 1 + size(*rator) + size_seq(args),
        TyV::Tuple(comps) => 1 + size_seq(comps),
        TyV::Struct(pairs) => 1 + size_pairs(pairs),
        TyV::Enum(arms) => 1 + size_arms(arms),
        TyV::DotDotDot { drivers, body } => 1 + size(*body),
    }
}

pub open spec fn size_seq(s: Seq<TyV>) -> nat
    decreases s,
{
    if s.len() == 0 {
        0
    } else {
        size(s[0]) + size_seq(s.subrange(1, s.len() as int))
    }
}

pub open spec fn size_pairs(s: Seq<(NameV, TyV)>) -> nat
    decreases s,
{
    if s.len() == 0 {
        0
    } else {
        size(s[0].1) + size_pairs(s.subrange(1, s.len() as int))
    }
}

pub open spec fn size_arms(s: Seq<(NameV, Seq<TyV>)>) -> nat
    decreases s,
{
    if s.len() == 0 {
        0
    } else {
        1 + size_seq(s[0].1) + size_arms(s.subrange(1, s.len() as int))
    }
}

/// Every element of a sequence is no larger than the whole sequence.
pub proof fn lemma_size_seq_elem(s: Seq<TyV>, i: int)
    requires
        0 <= i < s.len(),
    ensures
        size(s[i]) <= size_seq(s),
    decreases s.len(),
{
    if i == 0 {
    } else {
        lemma_size_seq_elem(s.subrange(1, s.len() as int), i - 1);
        assert(s.subrange(1, s.len() as int)[i - 1] == s[i]);
    }
}

/// Every component of a struct's pair list is no larger than the list.
pub proof fn lemma_size_pairs_elem(s: Seq<(NameV, TyV)>, i: int)
    requires
        0 <= i < s.len(),
    ensures
        size(s[i].1) <= size_pairs(s),
    decreases s.len(),
{
    if i == 0 {
    } else {
        lemma_size_pairs_elem(s.subrange(1, s.len() as int), i - 1);
        assert(s.subrange(1, s.len() as int)[i - 1] == s[i]);
    }
}

/// Every arm's component list is strictly smaller than the arm list.
pub proof fn lemma_size_arms_elem(s: Seq<(NameV, Seq<TyV>)>, i: int)
    requires
        0 <= i < s.len(),
    ensures
        size_seq(s[i].1) < size_arms(s),
    decreases s.len(),
{
    if i == 0 {
    } else {
        lemma_size_arms_elem(s.subrange(1, s.len() as int), i - 1);
        assert(s.subrange(1, s.len() as int)[i - 1] == s[i]);
    }
}

/// Every term has size at least 1.
pub proof fn lemma_size_pos(t: TyV)
    ensures
        size(t) >= 1,
{
}

/// An exact copy of a list of names.
pub fn dup_names(v: &Vec<Name>) -> (r: Vec<Name>)
    ensures
        names_view(r@) == names_view(v@),
{
    let mut r: Vec<Name> = Vec::new();
    let mut i: usize = 0;
    while i < v.len()
        invariant
            i <= v.len(),
            r@.len() == i,
            forall|j: int| 0 <= j < i ==> r@[j]@ == v@[j]@,
        decreases v.len() - i,
    {
        r.push(v[i].dup());
        i = i + 1;
    }
    proof {
        assert(names_view(r@) =~= names_view(v@));
    }
    r
}

/// Whether two lists of names are the same, elementwise.
pub fn names_eq(a: &Vec<Name>, b: &Vec<Name>) -> (r: bool)
    ensures
        r == (names_view(a@) == names_view(b@)),
{
    if a.len() != b.len() {
        proof {
            assert(names_view(a@).len() != names_view(b@).len());
        }
        return false;
    }
    let mut i: usize = 0;
    while i < a.len()
        invariant
            i <= a.len(),
            a@.len() == b@.len(),
            forall|j: int| 0 <= j < i ==> names_view(a@)[j] == names_view(b@)[j],
        decreases a.len() - i,
    {
        if !a[i].same(&b[i]) {
            proof {
                assert(names_view(a@)[i as int] != names_view(b@)[i as int]);
            }
            return false;
        }
        i = i + 1;
    }
    proof {
        assert(names_view(a@) =~= names_view(b@));
    }
    true
}

impl Ty {
    /// An exact copy of this term.
    pub fn dup(&self) -> (r: Ty)
        ensures
            r@ == self@,
        decreases size(self@), 0nat,
    {
        match self {
            Ty::Var(n) => Ty::Var(n.dup()),
            Ty::Base(n) => Ty::Base(n.dup()),
            Ty::Func { params, ret } => Ty::Func {
                params: dup_tys(params),
                ret: Box::new((&**ret).dup()),
            },
            Ty::Forall { params, body } => Ty::Forall {
                params: dup_names(params),
                body: Box::new((&**body).dup()),
            },
            Ty::Mu { params, body } => Ty::Mu {
                params: dup_names(params),
                body: Box::new((&**body).dup()),
            },
            Ty::Apply { rator, args } => Ty::Apply {
                rator: Box::new((&**rator).dup()),
                args: dup_tys(args),
            },
            Ty::Tuple(comps) => Ty::Tuple(dup_tys(comps)),
            Ty::Struct(pairs) => Ty::Struct(dup_pairs(pairs)),
            Ty::Enum(arms) => Ty::Enum(dup_arms(arms)),
            Ty::DotDotDot { drivers, body } => Ty::DotDotDot {
                drivers: dup_names(drivers),
                body: Box::new((&**body).dup()),
            },
            Ty::Undet(n) => Ty::Undet(n.dup()),
        }
    }
}

/// An exact copy of a list of terms.
pub fn dup_tys(v: &Vec<Ty>) -> (r: Vec<Ty>)
    ensures
        tys_view(r@) == tys_view(v@),
    decreases size_seq(tys_view(v@)), 1nat,
{
    let mut r: Vec<Ty> = Vec::new();
    let mut i: usize = 0;
    while i < v.len()
        invariant
            i <= v.len(),
            r@.len() == i,
            forall|j: int| 0 <= j < i ==> r@[j]@ == v@[j]@,
        decreases v.len() - i,
    {
        proof {
            lemma_tys_view_index(v@, i as int);
            lemma_tys_view_len(v@);
            lemma_size_seq_elem(tys_view(v@), i as int);
        }
        r.push(v[i].dup());
        i = i + 1;
    }
    proof {
        lemma_tys_view_len(v@);
        lemma_tys_view_len(r@);
        assert forall|j: int| 0 <= j < v@.len() implies tys_view(r@)[j] == tys_view(v@)[j] by {
            lemma_tys_view_index(v@, j);
            lemma_tys_view_index(r@, j);
        }
        assert(tys_view(r@) =~= tys_view(v@));
    }
    r
}

impl Ty {
    /// Whether two terms are the same term, structurally.
    pub fn same_ty(&self, other: &Ty) -> (r: bool)
        ensures
            r == (self@ == other@),
        decreases size(self@), 0nat,
    {
        match (self, other) {
            (Ty::Var(n), Ty::Var(m)) => n.same(m),
            (Ty::Base(n), Ty::Base(m)) => n.same(m),
            (Ty::Func { params: pa, ret: ra }, Ty::Func { params: pb, ret: rb }) => {
                proof {
                    lemma_size_pos((&**ra)@);
                }
                tys_eq(pa, pb) && (&**ra).same_ty(&**rb)
            },
            (Ty::Forall { params: pa, body: ba }, Ty::Forall { params: pb, body: bb }) => {
                names_eq(pa, pb) && (&**ba).same_ty(&**bb)
            },
            (Ty::Mu { params: pa, body: ba }, Ty::Mu { params: pb, body: bb }) => {
                names_eq(pa, pb) && (&**ba).same_ty(&**bb)
            },
            (Ty::Apply { rator: ra, args: aa }, Ty::Apply { rator: rb, args: ab }) => {
                proof {
                    lemma_size_pos((&**ra)@);
                }
                (&**ra).same_ty(&**rb) && tys_eq(aa, ab)
            },
            (Ty::Tuple(ca), Ty::Tuple(cb)) => tys_eq(ca, cb),
            (Ty::Struct(pa), Ty::Struct(pb)) => pairs_eq(pa, pb),
            (Ty::Enum(aa), Ty::Enum(ab)) => arms_eq(aa, ab),
            (Ty::DotDotDot { drivers: da, body: ba }, Ty::DotDotDot { drivers: db, body: bb }) => {
                names_eq(da, db) && (&**ba).same_ty(&**bb)
            },
            (Ty::Undet(n), Ty::Undet(m)) => n.same(m),
            _ => false,
        }
    }
}

/// Whether two term lists are the same, elementwise.
pub fn tys_eq(a: &Vec<Ty>, b: &Vec<Ty>) -> (r: bool)
    ensures
        r == (tys_view(a@) == tys_view(b@)),
    decreases size_seq(tys_view(a@)), 1nat,
{
    proof {
        lemma_tys_view_len(a@);
        lemma_tys_view_len(b@);
    }
    if a.len() != b.len() {
        return false;
    }
    let mut i: usize = 0;
    while i < a.len()
        invariant
            i <= a.len(),
            a@.len() == b@.len(),
            forall|j: int| 0 <= j < i ==> tys_view(a@)[j] == tys_view(b@)[j],
        decreases a.len() - i,
    {
        proof {
            lemma_tys_view_index(a@, i as int);
            lemma_tys_view_index(b@, i as int);
            lemma_tys_view_len(a@);
            lemma_size_seq_elem(tys_view(a@), i as int);
        }
        if !a[i].same_ty(&b[i]) {
            proof {
                assert(tys_view(a@)[i as int] != tys_view(b@)[i as int]);
            }
            return false;
        }
        i = i + 1;
    }
    proof {
        lemma_tys_view_len(a@);
        lemma_tys_view_len(b@);
        assert(tys_view(a@) =~= tys_view(b@));
    }
    true
}

/// Whether two struct component lists are the same, elementwise.
pub fn pairs_eq(a: &Vec<(Name, Ty)>, b: &Vec<(Name, Ty)>) -> (r: bool)
    ensures
        r == (pairs_view(a@) == pairs_view(b@)),
    decreases size_pairs(pairs_view(a@)), 1nat,
{
    proof {
        lemma_pairs_view_len(a@);
        lemma_pairs_view_len(b@);
    }
    if a.len() != b.len() {
        return false;
    }
    let mut i: usize = 0;
    while i < a.len()
        invariant
            i <= a.len(),
            a@.len() == b@.len(),
            forall|j: int| 0 <= j < i ==> pairs_view(a@)[j] == pairs_view(b@)[j],
        decreases a.len() - i,
    {
        proof {
            lemma_pairs_view_index(a@, i as int);
            lemma_pairs_view_index(b@, i as int);
            lemma_pairs_view_len(a@);
            lemma_size_pairs_elem(pairs_view(a@), i as int);
        }
        let same_here = a[i].0.same(&b[i].0) && a[i].1.same_ty(&b[i].1);
        if !same_here {
            proof {
                assert(pairs_view(a@)[i as int] != pairs_view(b@)[i as int]);
            }
            return false;
        }
        i = i + 1;
    }
    proof {
        lemma_pairs_view_len(a@);
        lemma_pairs_view_len(b@);
        assert(pairs_view(a@) =~= pairs_view(b@));
    }
    true
}

/// Whether two enum arm lists are the same, elementwise.
pub fn arms_eq(a: &Vec<(Name, Vec<Ty>)>, b: &Vec<(Name, Vec<Ty>)>) -> (r: bool)
    ensures
        r == (arms_view(a@) == arms_view(b@)),
    decreases size_arms(arms_view(a@)), 1nat,
{
    proof {
        lemma_arms_view_len(a@);
        lemma_arms_view_len(b@);
    }
    if a.len() != b.len() {
        return false;
    }
    let mut i: usize = 0;
    while i < a.len()
        invariant
            i <= a.len(),
            a@.len() == b@.len(),
            forall|j: int| 0 <= j < i ==> arms_view(a@)[j] == arms_view(b@)[j],
        decreases a.len() - i,
    {
        proof {
            lemma_arms_view_index(a@, i as int);
            lemma_arms_view_index(b@, i as int);
            lemma_arms_view_len(a@);
            lemma_size_arms_elem(arms_view(a@), i as int);
        }
        let same_here = a[i].0.same(&b[i].0) && tys_eq(&a[i].1, &b[i].1);
        if !same_here {
            proof {
                assert(arms_view(a@)[i as int] != arms_view(b@)[i as int]);
            }
            return false;
        }
        i = i + 1;
    }
    proof {
        lemma_arms_view_len(a@);
        lemma_arms_view_len(b@);
        assert(arms_view(a@) =~= arms_view(b@));
    }
    true
}

/// An exact copy of a struct's component list.
pub fn dup_pairs(v: &Vec<(Name, Ty)>) -> (r: Vec<(Name, Ty)>)
    ensures
        pairs_view(r@) == pairs_view(v@),
    decreases size_pairs(pairs_view(v@)), 1nat,
{
    let mut r: Vec<(Name, Ty)> = Vec::new();
    let mut i: usize = 0;
    while i < v.len()
        invariant
            i <= v.len(),
            r@.len() == i,
            forall|j: int| 0 <= j < i ==> pair_view(r@[j]) == pair_view(v@[j]),
        decreases v.len() - i,
    {
        proof {
            lemma_pairs_view_index(v@, i as int);
            lemma_pairs_view_len(v@);
            lemma_size_pairs_elem(pairs_view(v@), i as int);
        }
        let p = &v[i];
        r.push((p.0.dup(), p.1.dup()));
        i = i + 1;
    }
    proof {
        lemma_pairs_view_len(v@);
        lemma_pairs_view_len(r@);
        assert forall|j: int| 0 <= j < v@.len() implies pairs_view(r@)[j] == pairs_view(v@)[j] by {
            lemma_pairs_view_index(v@, j);
            lemma_pairs_view_index(r@, j);
        }
        assert(pairs_view(r@) =~= pairs_view(v@));
    }
    r
}

/// An exact copy of an enum's arm list.
pub fn dup_arms(v: &Vec<(Name, Vec<Ty>)>) -> (r: Vec<(Name, Vec<Ty>)>)
    ensures
        arms_view(r@) == arms_view(v@),
    decreases size_arms(arms_view(v@)), 1nat,
{
    let mut r: Vec<(Name, Vec<Ty>)> = Vec::new();
    let mut i: usize = 0;
    while i < v.len()
        invariant
            i <= v.len(),
            r@.len() == i,
            forall|j: int| 0 <= j < i ==> arm_view(r@[j]) == arm_view(v@[j]),
        decreases v.len() - i,
    {
        proof {
            lemma_arms_view_index(v@, i as int);
            lemma_arms_view_len(v@);
            lemma_size_arms_elem(arms_view(v@), i as int);
        }
        let p = &v[i];
        r.push((p.0.dup(), dup_tys(&p.1)));
        i = i + 1;
    }
    proof {
        lemma_arms_view_len(v@);
        lemma_arms_view_len(r@);
        assert forall|j: int| 0 <= j < v@.len() implies arms_view(r@)[j] == arms_view(v@)[j] by {
            lemma_arms_view_index(v@, j);
            lemma_arms_view_index(r@, j);
        }
        assert(arms_view(r@) =~= arms_view(v@));
    }
    r
}

/// The errors the engine reports. The first four are ordinary type errors; a
/// caller performing many independent checks can recover from them and go on
/// checking other terms. The last three mark internal-consistency failures
/// (malformed input from an earlier phase, or the engine's divergence guard):
/// they end the whole check rather than describing the checked program.
pub enum TyErrV {
    /// Structural subtype or equality failure: (got, expected).
    Mismatch(TyV, TyV),
    /// A placeholder or variable with no entry.
    UnboundName(NameV),
    /// Tuple or splice arity failure: the offending components and the
    /// expected length.
    LengthMismatch(Seq<TyV>, nat),
    /// A term had the wrong shape for the operation attempted: the term and
    /// the name of the expected shape.
    UnableToDestructure(TyV, NameV),
    /// A `forall` applied to the wrong number of arguments (a kind error).
    ArityMismatch(nat, nat),
    /// A splice nested directly inside a splice: unsupported.
    NestedSplice,
    /// The divergence guard tripped: resolution or walking exceeded the
    /// engine's recursion budget.
    DepthExceeded,
}

/// An error from canonicalization, resolution, or a subtype check.
#[derive(Debug, PartialEq)]
pub enum TyErr {
    Mismatch(Ty, Ty),
    UnboundName(Name),
    LengthMismatch(Vec<Ty>, usize),
    UnableToDestructure(Ty, Name),
    ArityMismatch(usize, usize),
    NestedSplice,
    DepthExceeded,
}

impl View for TyErr {
    type V = TyErrV;

    open spec fn view(&self) -> TyErrV {
        match self {
            TyErr::Mismatch(got, expected) => TyErrV::Mismatch(got@, expected@),
            TyErr::UnboundName(n) => TyErrV::UnboundName(n@),
            TyErr::LengthMismatch(comps, n) => TyErrV::LengthMismatch(
                tys_view(comps@),
                *n as nat,
            ),
            TyErr::UnableToDestructure(t, shape) => TyErrV::UnableToDestructure(t@, shape@),
            TyErr::ArityMismatch(want, got) => TyErrV::ArityMismatch(*want as nat, *got as nat),
            TyErr::NestedSplice => TyErrV::NestedSplice,
            TyErr::DepthExceeded => TyErrV::DepthExceeded,
        }
    }
}

} // verus!

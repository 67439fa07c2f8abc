//! Environments, closures, and the unification store.
//!
//! An environment is an ordered, name-keyed mapping from names to types;
//! lookups shadow by nearest (most recent) binding. A closure pairs a type
//! term with the environment needed to resolve its free references. The
//! unification store maps generated placeholder names to closures; it is
//! written only by the negative (subtype) walk and read during resolution,
//! and it owns the fresh-name counter for placeholder generation.

use vstd::prelude::*;

use crate::names::Name;
use crate::names::NameV;
use crate::terms::dup_pairs;
use crate::terms::pair_view;
use crate::terms::pairs_view;
use crate::terms::lemma_pairs_view_index;
use crate::terms::lemma_pairs_view_len;
use crate::terms::Ty;
use crate::terms::TyV;

verus! {

/// The model of an environment: bindings in insertion order; the latest
/// binding of a name shadows any earlier one.
pub type EnvV = Seq<(NameV, TyV)>;

/// Look a name up in an environment model: the latest binding wins.
pub open spec fn env_find(e: EnvV, n: NameV) -> Option<TyV>
    decreases e.len(),
{
    if e.len() == 0 {
        None
    } else if e[e.len() - 1].0 == n {
        Some(e[e.len() - 1].1)
    } else {
        env_find(e.subrange(0, e.len() - 1), n)
    }
}

/// A name is mu-protected in an environment when it is bound to itself: it
/// marks the entry point of a recursive type and must be compared by name,
/// never expanded.
pub open spec fn protected_in(e: EnvV, n: NameV) -> bool {
    env_find(e, n) == Some(TyV::Var(n))
}

/// A variable-binding environment.
#[derive(Debug, PartialEq)]
pub struct Env {
    pub binds: Vec<(Name, Ty)>,
}

impl View for Env {
    type V = EnvV;

    open spec fn view(&self) -> EnvV {
        pairs_view(self.binds@)
    }
}

impl Env {
    /// The empty environment.
    pub fn new() -> (r: Env)
        ensures
            r@ == Seq::<(NameV, TyV)>::empty(),
    {
        let r = Env { binds: Vec::new() };
        proof {
            assert(r@ =~= Seq::<(NameV, TyV)>::empty());
        }
        r
    }

    /// This environment extended with one binding, which shadows any earlier
    /// binding of the same name. The original environment is unchanged.
    pub fn set(&self, n: Name, t: Ty) -> (r: Env)
        ensures
            r@ == self@.push((n@, t@)),
    {
        let mut binds = dup_pairs(&self.binds);
        let ghost old_binds = binds@;
        binds.push((n, t));
        let r = Env { binds };
        proof {
            lemma_pairs_view_len(self.binds@);
            lemma_pairs_view_len(old_binds);
            lemma_pairs_view_len(r.binds@);
            assert forall|j: int| 0 <= j < r.binds@.len() implies #[trigger] pairs_view(
                r.binds@,
            )[j] == self@.push((n@, t@))[j] by {
                lemma_pairs_view_index(r.binds@, j);
                if j < self.binds@.len() {
                    lemma_pairs_view_index(old_binds, j);
                }
            }
            assert(r@ =~= self@.push((n@, t@)));
        }
        r
    }

    /// This environment extended with every binding of `other`, in order.
    pub fn set_assoc(&self, other: &Env) -> (r: Env)
        ensures
            r@ == self@ + other@,
    {
        let mut binds = dup_pairs(&self.binds);
        let ghost base = binds@;
        let more = dup_pairs(&other.binds);
        let mut i: usize = 0;
        let mut r_binds = binds;
        let more_v = more;
        proof {
            lemma_pairs_view_len(more_v@);
            lemma_pairs_view_len(other.binds@);
            assert forall|j: int| 0 <= j < more_v@.len() implies #[trigger] pair_view(
                more_v@[j],
            ) == pair_view(other.binds@[j]) by {
                lemma_pairs_view_index(more_v@, j);
                lemma_pairs_view_index(other.binds@, j);
            }
        }
        // append a copy of every binding of `more_v` onto `r_binds`
        while i < more_v.len()
            invariant
                i <= more_v.len(),
                more_v@.len() == other.binds@.len(),
                r_binds@.len() == base.len() + i,
                forall|j: int| 0 <= j < base.len() ==> r_binds@[j] == base[j],
                forall|j: int|
                    0 <= j < i ==> #[trigger] pair_view(r_binds@[base.len() + j]) == pair_view(
                        more_v@[j],
                    ),
                forall|j: int|
                    0 <= j < more_v@.len() ==> #[trigger] pair_view(more_v@[j]) == pair_view(
                        other.binds@[j],
                    ),
            decreases more_v.len() - i,
        {
            let p = &more_v[i];
            r_binds.push((p.0.dup(), p.1.dup()));
            i = i + 1;
        }
        let r = Env { binds: r_binds };
        proof {
            lemma_pairs_view_len(self.binds@);
            lemma_pairs_view_len(other.binds@);
            lemma_pairs_view_len(base);
            lemma_pairs_view_len(r.binds@);
            assert forall|j: int| 0 <= j < r.binds@.len() implies #[trigger] pairs_view(
                r.binds@,
            )[j] == (self@ + other@)[j] by {
                lemma_pairs_view_index(r.binds@, j);
                if j < base.len() {
                    lemma_pairs_view_index(base, j);
                    lemma_pairs_view_index(self.binds@, j);
                } else {
                    let jj = j - base.len();
                    assert(pair_view(r.binds@[base.len() + jj]) == pair_view(more_v@[jj]));
                    lemma_pairs_view_index(other.binds@, jj);
                }
            }
            assert(r@ =~= self@ + other@);
        }
        r
    }

    /// An exact copy of this environment.
    pub fn dup(&self) -> (r: Env)
        ensures
            r@ == self@,
    {
        Env { binds: dup_pairs(&self.binds) }
    }

    /// Look a name up: the latest binding wins; `None` when the name is
    /// unbound.
    pub fn find(&self, n: &Name) -> (r: Option<&Ty>)
        ensures
            match r {
                Some(t) => env_find(self@, n@) == Some(t@),
                None => env_find(self@, n@) is None,
            },
    {
        proof {
            lemma_pairs_view_len(self.binds@);
            assert(pairs_view(self.binds@).subrange(0, pairs_view(self.binds@).len() as int)
                =~= pairs_view(self.binds@));
        }
        let mut i: usize = self.binds.len();
        while i > 0
            invariant
                i <= self.binds@.len(),
                env_find(self@, n@) == env_find(pairs_view(self.binds@).subrange(0, i as int), n@),
            decreases i,
        {
            proof {
                lemma_pairs_view_len(self.binds@);
                lemma_pairs_view_index(self.binds@, i - 1);
                assert(pairs_view(self.binds@).subrange(0, i as int).subrange(0, i - 1)
                    =~= pairs_view(self.binds@).subrange(0, i - 1));
            }
            i = i - 1;
            if self.binds[i].0.same(n) {
                return Some(&self.binds[i].1);
            }
        }
        proof {
            assert(pairs_view(self.binds@).subrange(0, 0) =~= Seq::<(NameV, TyV)>::empty());
        }
        None
    }
}

/// The model of a closure.
pub struct CloV {
    pub it: TyV,
    pub env: EnvV,
}

/// A closure: a type term paired with the environment needed to resolve its
/// free variable references.
#[derive(Debug, PartialEq)]
pub struct Clo {
    pub it: Ty,
    pub env: Env,
}

impl View for Clo {
    type V = CloV;

    open spec fn view(&self) -> CloV {
        CloV { it: self.it@, env: self.env@ }
    }
}

impl Clo {
    /// An exact copy of this closure.
    pub fn dup(&self) -> (r: Clo)
        ensures
            r@ == self@,
    {
        Clo { it: self.it.dup(), env: self.env.dup() }
    }
}

/// The model of the unification store: recorded determinations in insertion
/// order, and the fresh-name counter.
pub struct UnifV {
    pub entries: Seq<(NameV, CloV)>,
    pub next: nat,
}

/// The model of the store's entry list.
pub open spec fn entries_view(v: Seq<(Name, Clo)>) -> Seq<(NameV, CloV)> {
    Seq::new(v.len(), |i: int| (v[i].0@, v[i].1@))
}

/// Look a placeholder name up among recorded determinations: the latest entry
/// wins.
pub open spec fn store_find(s: Seq<(NameV, CloV)>, n: NameV) -> Option<CloV>
    decreases s.len(),
{
    if s.len() == 0 {
        None
    } else if s[s.len() - 1].0 == n {
        Some(s[s.len() - 1].1)
    } else {
        store_find(s.subrange(0, s.len() - 1), n)
    }
}

/// The unification store: the mutable state of one type-checking session. It
/// maps generated placeholder names to the closures they were determined to
/// be, and it generates fresh placeholder names. Determinations are recorded
/// only by the negative (subtype) walk's pre-match step and by the splicer;
/// resolution and canonicalization only read the store.
#[derive(Debug)]
pub struct UnifStore {
    entries: Vec<(Name, Clo)>,
    next: u64,
}

impl View for UnifStore {
    type V = UnifV;

    closed spec fn view(&self) -> UnifV {
        UnifV { entries: entries_view(self.entries@), next: self.next as nat }
    }
}

impl UnifStore {
    /// An empty store for a new session.
    pub fn new() -> (r: UnifStore)
        ensures
            r@.entries == Seq::<(NameV, CloV)>::empty(),
            r@.next == 0,
    {
        let r = UnifStore { entries: Vec::new(), next: 0 };
        proof {
            assert(r@.entries =~= Seq::<(NameV, CloV)>::empty());
        }
        r
    }

    /// An empty store whose fresh-name counter starts at `next`, so that
    /// names generated here stay clear of any generated name already
    /// occurring in the caller's terms.
    pub fn starting_at(next: u64) -> (r: UnifStore)
        ensures
            r@.entries == Seq::<(NameV, CloV)>::empty(),
            r@.next == next as nat,
    {
        let r = UnifStore { entries: Vec::new(), next };
        proof {
            assert(r@.entries =~= Seq::<(NameV, CloV)>::empty());
        }
        r
    }

    /// Look a placeholder name up.
    pub fn find(&self, n: &Name) -> (r: Option<&Clo>)
        ensures
            match r {
                Some(c) => store_find(self@.entries, n@) == Some(c@),
                None => store_find(self@.entries, n@) is None,
            },
    {
        proof {
            assert(entries_view(self.entries@).subrange(
                0,
                entries_view(self.entries@).len() as int,
            ) =~= entries_view(self.entries@));
        }
        let mut i: usize = self.entries.len();
        while i > 0
            invariant
                i <= self.entries@.len(),
                store_find(self@.entries, n@) == store_find(
                    entries_view(self.entries@).subrange(0, i as int),
                    n@,
                ),
            decreases i,
        {
            proof {
                assert(entries_view(self.entries@).subrange(0, i as int).subrange(0, i - 1)
                    =~= entries_view(self.entries@).subrange(0, i - 1));
            }
            i = i - 1;
            if self.entries[i].0.same(n) {
                return Some(&self.entries[i].1);
            }
        }
        proof {
            assert(entries_view(self.entries@).subrange(0, 0) =~= Seq::<(NameV, CloV)>::empty());
        }
        None
    }

    /// Record a determination: bind a placeholder name to a closure. A later
    /// entry for the same name would shadow an earlier one, but the engine
    /// only ever binds names it has just found unbound.
    pub fn bind(&mut self, n: Name, c: Clo)
        ensures
            final(self)@.entries == old(self)@.entries.push((n@, c@)),
            final(self)@.next == old(self)@.next,
    {
        let ghost before = self.entries@;
        self.entries.push((n, c));
        proof {
            assert forall|j: int| 0 <= j < self.entries@.len() implies #[trigger] entries_view(
                self.entries@,
            )[j] == entries_view(before).push((n@, c@))[j] by {}
            assert(entries_view(self.entries@) =~= entries_view(before).push((n@, c@)));
        }
    }

    /// A fresh generated name carrying the given diagnostic hint. The counter
    /// stops advancing at its maximum, which is never reached in practice.
    pub fn fresh_name(&mut self, hint: &str) -> (r: Name)
        ensures
            r@ == NameV::Gen(old(self)@.next, hint@),
            final(self)@.entries == old(self)@.entries,
            final(self)@.next == if old(self)@.next < u64::MAX as nat {
                old(self)@.next + 1
            } else {
                old(self)@.next
            },
    {
        let ghost before = self.entries@;
        let n = Name::Gen(self.next, hint.to_owned());
        if self.next < u64::MAX {
            self.next = self.next + 1;
        }
        proof {
            assert(entries_view(self.entries@) =~= entries_view(before));
        }
        n
    }

    /// A fresh underdetermined type: a placeholder node carrying a fresh
    /// generated name, to stand for a type not yet known.
    pub fn underspecified(&mut self, hint: &str) -> (r: Ty)
        ensures
            r@ == TyV::Undet(NameV::Gen(old(self)@.next, hint@)),
            final(self)@.entries == old(self)@.entries,
            final(self)@.next == if old(self)@.next < u64::MAX as nat {
                old(self)@.next + 1
            } else {
                old(self)@.next
            },
    {
        Ty::Undet(self.fresh_name(hint))
    }
}

} // verus!

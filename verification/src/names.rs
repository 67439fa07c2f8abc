//! Names: the identifiers that label type variables, base types, struct
//! components, enum arms, and unification placeholders.

use vstd::prelude::*;

verus! {

/// The mathematical model of a name: either a source-level identifier (a
/// sequence of characters) or a generated placeholder name, unique by its
/// counter value and carrying a human-readable hint for diagnostics only.
pub enum NameV {
    Src(Seq<char>),
    Gen(nat, Seq<char>),
}

/// A name. `Src` names come from source text; `Gen` names are produced by the
/// unification store's fresh-name generator ("gensym"), so that no two
/// generated names collide. The string in a `Gen` name is a hint for
/// diagnostics only, but it participates in equality (harmlessly, since the
/// counter alone already distinguishes generated names).
#[derive(Debug, Clone, PartialEq, Eq)]
pub enum Name {
    Src(String),
    Gen(u64, String),
}

impl View for Name {
    type V = NameV;

    open spec fn view(&self) -> NameV {
        match self {
            Name::Src(s) => NameV::Src(s@),
            Name::Gen(k, h) => NameV::Gen(*k as nat, h@),
        }
    }
}

impl Name {
    /// A source-level name with the given spelling.
    pub fn src(s: &str) -> (r: Name)
        ensures
            r@ == NameV::Src(s@),
    {
        Name::Src(s.to_owned())
    }

    /// An exact copy of this name.
    pub fn dup(&self) -> (r: Name)
        ensures
            r@ == self@,
    {
        match self {
            Name::Src(s) => Name::Src(s.clone()),
            Name::Gen(k, h) => Name::Gen(*k, h.clone()),
        }
    }

    /// Whether two names are the same name.
    pub fn same(&self, other: &Name) -> (r: bool)
        ensures
            r == (self@ == other@),
    {
        match (self, other) {
            (Name::Src(a), Name::Src(b)) => *a == *b,
            (Name::Gen(j, a), Name::Gen(k, b)) => *j == *k && *a == *b,
            _ => false,
        }
    }
}

} // verus!

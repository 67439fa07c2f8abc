//! A type-relation engine for a System-F-like calculus with equi-recursive
//! (`mu`) types, universal quantification, and variadic tuple splicing.
//!
//! The engine resolves type-level variable references and unification
//! placeholders against an explicit unification store, canonicalizes types
//! (positive walk), checks structural subtyping (negative walk, which may
//! record placeholder determinations in the store), and splices variadic
//! "driver" patterns against tuples whose arity is only discovered at check
//! time.

pub mod canon;
pub mod env;
pub mod laws;
pub mod names;
pub mod resolve;
pub mod subst;
pub mod subtype;
pub mod terms;

pub use canon::canonicalize;
pub use env::Clo;
pub use env::CloV;
pub use env::Env;
pub use env::EnvV;
pub use env::UnifStore;
pub use env::UnifV;
pub use names::Name;
pub use names::NameV;
pub use resolve::resolve;
pub use resolve::DEPTH_LIMIT;
pub use subtype::is_subtype;
pub use subtype::must_equal;
pub use subtype::must_subtype;
pub use subtype::splice_ddd;
pub use terms::Ty;
pub use terms::TyErr;
pub use terms::TyErrV;
pub use terms::TyV;

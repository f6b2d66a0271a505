//! Order-independent, content-based hashing for unordered containers.
//!
//! A `HashableMap` or `HashableSet` wraps the corresponding std
//! collection and adds one capability: an aggregate hash of its contents
//! that does not depend on insertion order or internal bucket layout.
//! Per-entry digests are produced by a pluggable hash strategy and
//! folded with wrapping 64-bit addition, a commutative and associative
//! operator, so any two containers holding the same entries hash alike.
//!
//! Neither variant mixes the entry count into the fold: an empty
//! container hashes to 0, and the aggregate of any container is the
//! plain wrapping sum of its per-entry digests.

pub mod combine;
pub mod digest;
pub mod map;
pub mod set;

pub use digest::Digester;
pub use digest::Digestible;
pub use digest::Fnv1aStrategy;
pub use digest::HashStrategy;
pub use digest::StdStrategy;
pub use map::HashableMap;
pub use set::HashableSet;

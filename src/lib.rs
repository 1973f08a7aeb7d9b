//! A generational arena: stable, copyable keys to stored values, with
//! stale-key detection and O(1) slot reuse through an internal free list.
pub mod version;
pub mod key;
pub mod collection;

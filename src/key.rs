//! The `Key` trait, which identifies an entry in an arena, and `Id`, its
//! default implementation.
use vstd::prelude::*;

use crate::version::{Checked32, Version};

verus! {

/// A key for an entry in an arena: a slot index together with the
/// version of the occupant it was issued for.
pub trait Key: Sized + Copy {
    type Version: Version;

    /// Whether `index` can be stored in a key of this type.
    spec fn holds_index(index: int) -> bool;

    spec fn spec_index(self) -> nat;

    spec fn spec_version(self) -> Self::Version;

    /// Builds a key from an index and a version; `None` where the index
    /// is too large for the key's index type.
    fn new(index: usize, version: Self::Version) -> (r: Option<Self>)
        ensures
            r is Some <==> Self::holds_index(index as int),
            r matches Some(k) ==> k.spec_index() == index && k.spec_version() == version,
    ;

    fn index(self) -> (r: usize)
        ensures
            r == self.spec_index(),
    ;

    fn version(self) -> (r: Self::Version)
        ensures
            r == self.spec_version(),
    ;
}

/// A compact key: a 32-bit index with a generic versioning strategy.
#[derive(PartialEq, Eq, PartialOrd, Ord, Hash, Clone, Copy, Debug)]
pub struct Id<G = Checked32> {
    index: u32,
    version: G,
}

impl<G: Version> Key for Id<G> {
    type Version = G;

    open spec fn holds_index(index: int) -> bool {
        0 <= index <= u32::MAX
    }

    closed spec fn spec_index(self) -> nat {
        self.index as nat
    }

    closed spec fn spec_version(self) -> G {
        self.version
    }

    fn new(index: usize, version: G) -> (r: Option<Self>) {
        if index <= u32::MAX as usize {
            Some(Id { index: index as u32, version })
        } else {
            None
        }
    }

    fn index(self) -> (r: usize) {
        self.index as usize
    }

    fn version(self) -> (r: G) {
        self.version
    }
}

impl<G: Version> Id<G> {
    /// Two keys are the same exactly when their indices and versions are.
    pub proof fn lemma_fields_determine(a: Self, b: Self)
        ensures
            (a == b) <==> (a.spec_index() == b.spec_index() && a.spec_version()
                == b.spec_version()),
    {
    }

    /// The index that the default key holds, which is `u32::MAX`.
    pub open spec fn default_index() -> nat {
        u32::MAX as nat
    }
}

impl<G: Version> Default for Id<G> {
    /// A key with the largest index and the initial version.
    fn default() -> (r: Self)
        ensures
            r.spec_index() == Self::default_index(),
            r.spec_version() == G::initial(),
    {
        let index = u32::MAX;
        let version = G::new();
        Id { index, version }
    }
}

/// Looks up the element that `id` indexes in a slice; the index must be
/// in range.
pub fn index<G: Version, T>(items: &[T], id: Id<G>) -> (r: &T)
    requires
        id.spec_index() < items@.len(),
    ensures
        *r == items@[id.spec_index() as int],
{
    &items[id.index()]
}

/// Looks up the element that `id` indexes in a vector; the index must be
/// in range.
pub fn vec_index<G: Version, T>(items: &Vec<T>, id: Id<G>) -> (r: &T)
    requires
        id.spec_index() < items@.len(),
    ensures
        *r == items@[id.spec_index() as int],
{
    &items[id.index()]
}

/// The element that `id` indexes in a slice, for change in place; the
/// index must be in range.
pub fn index_mut<G: Version, T>(items: &mut [T], id: Id<G>) -> (r: &mut T)
    requires
        id.spec_index() < old(items)@.len(),
    ensures
        *r == old(items)@[id.spec_index() as int],
        final(items)@ == old(items)@.update(id.spec_index() as int, *final(r)),
{
    &mut items[id.index()]
}

/// The element that `id` indexes in a vector, for change in place; the
/// index must be in range.
pub fn vec_index_mut<G: Version, T>(items: &mut Vec<T>, id: Id<G>) -> (r: &mut T)
    requires
        id.spec_index() < old(items)@.len(),
    ensures
        *r == old(items)@[id.spec_index() as int],
        final(items)@ == old(items)@.update(id.spec_index() as int, *final(r)),
{
    &mut items[id.index()]
}

} // verus!

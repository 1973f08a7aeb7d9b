//! The arena itself: a growable sequence of slots, a free list threaded
//! through the vacant ones, and a count of the occupied ones.
use vstd::prelude::*;

use crate::key::{Id, Key};
use crate::version::{Checked32, Nil, Version, Wrapping};

verus! {

/// One storage location of an arena.
pub enum Slot<V, G> {
    /// Holds a value and the version that was current when it was written.
    Occupied { value: V, version: G },
    /// Holds the version for the next occupant and the next vacant slot.
    Vacant { version: G, next: Option<usize> },
    /// Permanently out of use: its versions are exhausted.
    Retired,
}

/// One for an occupied slot, zero otherwise.
pub open spec fn weight<V, G>(slot: Slot<V, G>) -> nat {
    if slot is Occupied {
        1
    } else {
        0
    }
}

/// The number of occupied slots in `s`.
pub open spec fn occupied_count<V, G>(s: Seq<Slot<V, G>>) -> nat
    decreases s.len(),
{
    if s.len() == 0 {
        0
    } else {
        occupied_count(s.drop_last()) + weight(s.last())
    }
}

/// Replacing one slot changes the count by the difference of the weights.
pub proof fn lemma_count_update<V, G>(s: Seq<Slot<V, G>>, i: int, x: Slot<V, G>)
    requires
        0 <= i < s.len(),
    ensures
        occupied_count(s.update(i, x)) == occupied_count(s) - weight(s[i]) + weight(x),
    decreases s.len(),
{
    if i == s.len() - 1 {
        assert(s.update(i, x).drop_last() =~= s.drop_last());
    } else {
        lemma_count_update(s.drop_last(), i, x);
        assert(s.update(i, x).drop_last() =~= s.drop_last().update(i, x));
    }
}

/// Appending a slot adds its weight to the count.
pub proof fn lemma_count_push<V, G>(s: Seq<Slot<V, G>>, x: Slot<V, G>)
    ensures
        occupied_count(s.push(x)) == occupied_count(s) + weight(x),
{
    assert(s.push(x).drop_last() =~= s);
}

/// There are never more occupied slots than slots.
pub proof fn lemma_count_bound<V, G>(s: Seq<Slot<V, G>>)
    ensures
        occupied_count(s) <= s.len(),
    decreases s.len(),
{
    if s.len() > 0 {
        lemma_count_bound(s.drop_last());
    }
}

/// Whether `slot` is vacant.
fn slot_is_vacant<V, G>(slot: &Slot<V, G>) -> (r: bool)
    ensures
        r == slot is Vacant,
{
    match slot {
        Slot::Vacant { .. } => true,
        _ => false,
    }
}

/// The indices of the occupied slots of `s`, in ascending order.
pub open spec fn occupied_indices<V, G>(s: Seq<Slot<V, G>>) -> Seq<int>
    decreases s.len(),
{
    if s.len() == 0 {
        Seq::empty()
    } else if s.last() is Occupied {
        occupied_indices(s.drop_last()).push(s.len() - 1)
    } else {
        occupied_indices(s.drop_last())
    }
}

/// Relies on `Vec::capacity`, which is never below the length.
#[verifier::external_body]
fn vec_capacity<T>(v: &Vec<T>) -> (r: usize)
    ensures
        r >= v@.len(),
{
    v.capacity()
}

/// A generational arena: values are reached through keys, which carry the
/// version of the occupant that they were issued for.
pub struct Arena<K: Key, V> {
    slots: Vec<Slot<V, K::Version>>,
    free: Option<usize>,
    len: usize,
    free_list: Ghost<Seq<usize>>,
}

impl<K: Key, V> Arena<K, V> {
    /// The slots, in storage order.
    pub closed spec fn slots(&self) -> Seq<Slot<V, K::Version>> {
        self.slots@
    }

    /// The head of the free list.
    pub closed spec fn free_head(&self) -> Option<usize> {
        self.free
    }

    /// The index that the next insertion takes.
    pub open spec fn next_index(&self) -> int {
        match self.free_head() {
            Some(i) => i as int,
            None => self.slots().len() as int,
        }
    }

    /// Whether `key` names the current occupant of its slot.
    pub open spec fn valid(&self, key: K) -> bool {
        &&& key.spec_index() < self.slots().len()
        &&& self.slots()[key.spec_index() as int] matches Slot::Occupied { version, .. }
        &&& version == key.spec_version()
    }

    /// The value that `key` names, if it is valid.
    pub open spec fn value_of(&self, key: K) -> V
        recommends
            self.valid(key),
    {
        self.slots()[key.spec_index() as int]->Occupied_value
    }

    /// The free list is a chain through exactly the vacant slots, every
    /// index has a key, and the live count is the number of occupied slots.
    pub closed spec fn wf(&self) -> bool {
        Self::wf_parts(self.slots@, self.free, self.len, self.free_list@)
    }

    /// `wf`, over the fields one by one.
    closed spec fn wf_parts(
        s: Seq<Slot<V, K::Version>>,
        free: Option<usize>,
        len: usize,
        fl: Seq<usize>,
    ) -> bool {
        &&& forall|i: int| 0 <= i < s.len() ==> K::holds_index(i)
        &&& len == occupied_count(s)
        &&& free == (if fl.len() > 0 {
            Some(fl[0])
        } else {
            None
        })
        &&& forall|j: int, k: int| 0 <= j < k < fl.len() ==> fl[j] != fl[k]
        &&& forall|j: int|
            0 <= j < fl.len() ==> {
                &&& fl[j] < s.len()
                &&& s[fl[j] as int] matches Slot::Vacant { next, .. }
                &&& next == (if j + 1 < fl.len() {
                    Some(fl[j + 1])
                } else {
                    None
                })
            }
        &&& forall|i: int|
            0 <= i < s.len() && s[i] is Vacant ==> exists|j: int|
                0 <= j < fl.len() && fl[j] == i
    }

    /// `new` is `old` after `value` was stored under `key`: in the head of
    /// the free list at the version kept there, or else in a new slot at
    /// the end with the initial version.
    pub open spec fn inserted(old: Self, new: Self, key: K, value: V) -> bool {
        let i = key.spec_index() as int;
        &&& i == old.next_index()
        &&& if i < old.slots().len() {
            &&& old.slots()[i] matches Slot::Vacant { version, next }
            &&& key.spec_version() == version
            &&& new.slots() == old.slots().update(i, Slot::Occupied { value, version })
            &&& new.free_head() == next
        } else {
            &&& key.spec_version() == <K::Version as Version>::initial()
            &&& new.slots() == old.slots().push(
                Slot::Occupied { value, version: key.spec_version() },
            )
            &&& new.free_head() is None
        }
    }

    /// The key that the next insertion will return, if one can be built.
    fn next_key(&self) -> (r: Option<K>)
        requires
            self.wf(),
        ensures
            r is None <==> (self.free_head() is None && !K::holds_index(
                self.slots().len() as int,
            )),
            r matches Some(k) ==> {
                &&& k.spec_index() == self.next_index()
                &&& K::holds_index(self.next_index())
                &&& if self.next_index() < self.slots().len() {
                    self.slots()[self.next_index()] matches Slot::Vacant { version, .. }
                        && k.spec_version() == version
                } else {
                    k.spec_version() == <K::Version as Version>::initial()
                }
            },
    {
        match self.free {
            Some(head) => {
                proof {
                    assert(self.free_list@[0] == head);
                }
                let version = match &self.slots[head] {
                    Slot::Vacant { version, .. } => *version,
                    _ => K::Version::new(),
                };
                K::new(head, version)
            },
            None => K::new(self.slots.len(), K::Version::new()),
        }
    }

    /// Stores `value` under `key`, which `next_key` returned.
    fn occupy(&mut self, key: K, value: V)
        requires
            old(self).wf(),
            key.spec_index() == old(self).next_index(),
            K::holds_index(old(self).next_index()),
            if old(self).next_index() < old(self).slots().len() {
                old(self).slots()[old(self).next_index()] matches Slot::Vacant { version, .. }
                    && key.spec_version() == version
            } else {
                key.spec_version() == <K::Version as Version>::initial()
            },
        ensures
            final(self).wf(),
            Self::inserted(*old(self), *final(self), key, value),
            occupied_count(final(self).slots()) == occupied_count(old(self).slots()) + 1,
    {
        let ghost s0 = self.slots@;
        let ghost fl = self.free_list@;
        let version = key.version();
        match self.free {
            Some(head) => {
                assert(fl[0] == head);
                let next = match &self.slots[head] {
                    Slot::Vacant { next, .. } => *next,
                    _ => None,
                };
                self.slots.set(head, Slot::Occupied { value, version });
                self.free = next;
                let ghost fl2 = fl.subrange(1, fl.len() as int);
                self.free_list = Ghost(fl2);
                proof {
                    lemma_count_update(s0, head as int, Slot::Occupied { value, version });
                    lemma_count_bound(self.slots@);
                    assert(self.slots@.len() == self.slots.len());
                    let s = self.slots@;
                    assert forall|j: int| 0 <= j < fl2.len() implies fl2[j] != head by {
                        assert(fl2[j] == fl[j + 1]);
                    }
                    assert forall|j: int|
                        0 <= j < fl2.len() implies {
                            &&& fl2[j] < s.len()
                            &&& s[fl2[j] as int] matches Slot::Vacant { next, .. }
                            &&& next == (if j + 1 < fl2.len() {
                                Some(fl2[j + 1])
                            } else {
                                None
                            })
                        } by {
                        assert(fl2[j] == fl[j + 1]);
                        assert(fl[j + 1] != fl[0]);
                    }
                    assert forall|i: int| 0 <= i < s.len() && s[i] is Vacant implies exists|j: int|
                        0 <= j < fl2.len() && fl2[j] == i by {
                        assert(s0[i] is Vacant);
                        let j = choose|j: int| 0 <= j < fl.len() && fl[j] == i;
                        assert(j != 0);
                        assert(fl2[j - 1] == i);
                    }
                }
                self.len = self.len + 1;
            },
            None => {
                self.slots.push(Slot::Occupied { value, version });
                proof {
                    lemma_count_push(s0, Slot::Occupied { value, version });
                    lemma_count_bound(self.slots@);
                    assert(self.slots@.len() == self.slots.len());
                    let s = self.slots@;
                    assert forall|i: int| 0 <= i < s.len() && s[i] is Vacant implies exists|j: int|
                        0 <= j < fl.len() && fl[j] == i by {
                        assert(s0[i] is Vacant);
                    }
                }
                self.len = self.len + 1;
            },
        }
    }

    /// Stores `value` and returns its key; `None`, with the arena
    /// unchanged, only where a new slot's index does not fit in a key.
    pub fn insert(&mut self, value: V) -> (r: Option<K>)
        requires
            old(self).wf(),
        ensures
            final(self).wf(),
            r is None <==> (old(self).free_head() is None && !K::holds_index(
                old(self).slots().len() as int,
            )),
            r is None ==> final(self).slots() == old(self).slots() && final(self).free_head()
                == old(self).free_head(),
            r matches Some(k) ==> Self::inserted(*old(self), *final(self), k, value),
            r is Some ==> occupied_count(final(self).slots()) == occupied_count(old(self).slots())
                + 1,
    {
        match self.next_key() {
            Some(key) => {
                self.occupy(key, value);
                Some(key)
            },
            None => None,
        }
    }

    /// Stores the value that `f` makes from the key that it will be stored
    /// under, and returns that key; `None`, with the arena unchanged and
    /// `f` not called, where no key can be built.
    pub fn insert_with<F: FnOnce(K) -> V>(&mut self, f: F) -> (r: Option<K>)
        requires
            old(self).wf(),
            forall|k: K| f.requires((k,)),
        ensures
            final(self).wf(),
            r is None <==> (old(self).free_head() is None && !K::holds_index(
                old(self).slots().len() as int,
            )),
            r is None ==> final(self).slots() == old(self).slots() && final(self).free_head()
                == old(self).free_head(),
            r matches Some(k) ==> exists|v: V|
                f.ensures((k,), v) && Self::inserted(*old(self), *final(self), k, v),
            r is Some ==> occupied_count(final(self).slots()) == occupied_count(old(self).slots())
                + 1,
    {
        match self.next_key() {
            Some(key) => {
                let value = f(key);
                self.occupy(key, value);
                Some(key)
            },
            None => None,
        }
    }

    /// `new` is `old` after the occupant named by `key` was taken out: the
    /// slot is vacant at the next version and heads the free list, or,
    /// where the versions are exhausted, retired for good.
    pub open spec fn removed(old: Self, new: Self, key: K) -> bool {
        let i = key.spec_index() as int;
        match key.spec_version().next() {
            Some(w) => {
                &&& new.slots() == old.slots().update(
                    i,
                    Slot::Vacant { version: w, next: old.free_head() },
                )
                &&& new.free_head() == Some(i as usize)
            },
            None => {
                &&& new.slots() == old.slots().update(i, Slot::Retired)
                &&& new.free_head() == old.free_head()
            },
        }
    }

    /// Takes out the value that `key` names; `None`, with the arena
    /// unchanged, where the key is stale or out of range.
    pub fn remove(&mut self, key: K) -> (r: Option<V>)
        requires
            old(self).wf(),
        ensures
            final(self).wf(),
            r is Some <==> old(self).valid(key),
            r matches Some(v) ==> {
                &&& v == old(self).value_of(key)
                &&& Self::removed(*old(self), *final(self), key)
                &&& occupied_count(final(self).slots()) == occupied_count(old(self).slots()) - 1
            },
            r is None ==> final(self).slots() == old(self).slots() && final(self).free_head()
                == old(self).free_head(),
    {
        let i = key.index();
        if i >= self.slots.len() {
            return None;
        }
        let matching = match &self.slots[i] {
            Slot::Occupied { version, .. } => version.same(key.version()),
            _ => false,
        };
        if !matching {
            return None;
        }
        let ghost s0 = self.slots@;
        let ghost fl = self.free_list@;
        let mut slot = match key.version().increment() {
            Some(w) => Slot::Vacant { version: w, next: self.free },
            None => Slot::Retired,
        };
        std::mem::swap(&mut self.slots[i], &mut slot);
        proof {
            let s = self.slots@;
            assert(s == s0.update(i as int, s[i as int]));
            lemma_count_update(s0, i as int, s[i as int]);
            assert forall|j: int| 0 <= j < fl.len() implies fl[j] != i by {
                assert(s0[fl[j] as int] is Vacant);
            }
            if s[i as int] is Vacant {
                let fl2 = seq![i].add(fl);
                assert forall|j: int, k: int| 0 <= j < k < fl2.len() implies fl2[j] != fl2[k] by {
                    if j > 0 {
                        assert(fl2[j] == fl[j - 1]);
                    }
                    assert(fl2[k] == fl[k - 1]);
                }
                assert forall|j: int|
                    0 <= j < fl2.len() implies {
                        &&& fl2[j] < s.len()
                        &&& s[fl2[j] as int] matches Slot::Vacant { next, .. }
                        &&& next == (if j + 1 < fl2.len() {
                            Some(fl2[j + 1])
                        } else {
                            None
                        })
                    } by {
                    if j > 0 {
                        assert(fl2[j] == fl[j - 1]);
                        assert(fl2[j + 1 - 1 + 1] == fl2[j + 1]);
                    } else {
                        if fl.len() > 0 {
                            assert(fl2[1] == fl[0]);
                        }
                    }
                }
                assert forall|n: int| 0 <= n < s.len() && s[n] is Vacant implies exists|j: int|
                    0 <= j < fl2.len() && fl2[j] == n by {
                    if n == i {
                        assert(fl2[0] == n);
                    } else {
                        assert(s0[n] is Vacant);
                        let j = choose|j: int| 0 <= j < fl.len() && fl[j] == n;
                        assert(fl2[j + 1] == n);
                    }
                }
                self.free_list = Ghost(fl2);
            } else {
                assert forall|n: int| 0 <= n < s.len() && s[n] is Vacant implies exists|j: int|
                    0 <= j < fl.len() && fl[j] == n by {
                    assert(s0[n] is Vacant);
                }
            }
        }
        if slot_is_vacant(&self.slots[i]) {
            self.free = Some(i);
        }
        self.len = self.len - 1;
        match slot {
            Slot::Occupied { value, .. } => Some(value),
            _ => None,
        }
    }

    /// The value that `key` names; `None` where the key is stale or out
    /// of range.
    pub fn get(&self, key: K) -> (r: Option<&V>)
        ensures
            r is Some <==> self.valid(key),
            r matches Some(v) ==> *v == self.value_of(key),
    {
        let i = key.index();
        if i >= self.slots.len() {
            return None;
        }
        match &self.slots[i] {
            Slot::Occupied { value, version } => {
                if version.same(key.version()) {
                    Some(value)
                } else {
                    None
                }
            },
            _ => None,
        }
    }

    /// Whether `key` names a stored value.
    pub fn contains(&self, key: K) -> (r: bool)
        ensures
            r == self.valid(key),
    {
        let i = key.index();
        if i >= self.slots.len() {
            return false;
        }
        match &self.slots[i] {
            Slot::Occupied { version, .. } => version.same(key.version()),
            _ => false,
        }
    }

    /// The value that `key` names, for change in place; `None`, with the
    /// arena unchanged, where the key is stale or out of range.
    pub fn get_mut(&mut self, key: K) -> (r: Option<&mut V>)
        requires
            old(self).wf(),
        ensures
            r is Some <==> old(self).valid(key),
            r matches Some(v) ==> *v == old(self).value_of(key),
            r matches Some(v) ==> final(self).slots() == old(self).slots().update(
                key.spec_index() as int,
                Slot::Occupied { value: *final(v), version: key.spec_version() },
            ),
            final(self).free_head() == old(self).free_head(),
            final(self).wf(),
            r is None ==> *final(self) == *old(self),
    {
        if !self.contains(key) {
            return None;
        }
        let i = key.index();
        let ghost s0 = self.slots@;
        let ghost version = key.spec_version();
        proof {
            assert forall|x: V| #[trigger]
                Self::wf_parts(
                    s0.update(i as int, Slot::Occupied { value: x, version }),
                    self.free,
                    self.len,
                    self.free_list@,
                ) by {
                let s = s0.update(i as int, Slot::Occupied { value: x, version });
                lemma_count_update(s0, i as int, Slot::Occupied { value: x, version });
                assert forall|n: int| 0 <= n < s.len() && s[n] is Vacant implies exists|j: int|
                    0 <= j < self.free_list@.len() && self.free_list@[j] == n by {
                    assert(s0[n] is Vacant);
                }
            }
        }
        match &mut self.slots[i] {
            Slot::Occupied { value, .. } => Some(value),
            _ => None,
        }
    }


    /// The number of slots that the arena can hold without reallocating.
    pub fn capacity(&self) -> (r: usize)
        ensures
            r >= self.slots().len(),
    {
        vec_capacity(&self.slots)
    }

    /// Drops every stored value and empties the storage; the reserved room
    /// is kept.
    pub fn clear(&mut self)
        ensures
            final(self).wf(),
            final(self).slots().len() == 0,
            final(self).free_head() is None,
    {
        self.slots.clear();
        self.free = None;
        self.len = 0;
        self.free_list = Ghost(Seq::empty());
    }

    /// The stored values with their keys, in ascending slot order.
    pub fn iter(&self) -> (r: Vec<(K, &V)>)
        requires
            self.wf(),
        ensures
            r@.len() == occupied_indices(self.slots()).len(),
            forall|j: int|
                0 <= j < r@.len() ==> {
                    let i = occupied_indices(self.slots())[j];
                    &&& (#[trigger] r@[j]).0.spec_index() == i
                    &&& self.valid(r@[j].0)
                    &&& *r@[j].1 == self.slots()[i]->Occupied_value
                },
    {
        let mut out: Vec<(K, &V)> = Vec::new();
        let mut i: usize = 0;
        while i < self.slots.len()
            invariant
                self.wf(),
                0 <= i <= self.slots@.len(),
                out@.len() == occupied_indices(self.slots@.subrange(0, i as int)).len(),
                forall|j: int|
                    0 <= j < out@.len() ==> {
                        let n = occupied_indices(self.slots@.subrange(0, i as int))[j];
                        &&& (#[trigger] out@[j]).0.spec_index() == n
                        &&& self.valid(out@[j].0)
                        &&& *out@[j].1 == self.slots@[n]->Occupied_value
                    },
            decreases self.slots@.len() - i,
        {
            let ghost before = self.slots@.subrange(0, i as int);
            let ghost after = self.slots@.subrange(0, i + 1);
            assert(after.drop_last() =~= before);
            match &self.slots[i] {
                Slot::Occupied { value, version } => {
                    proof {
                        assert(K::holds_index(i as int));
                    }
                    match K::new(i, *version) {
                        Some(key) => {
                            out.push((key, value));
                        },
                        None => {},
                    }
                },
                _ => {},
            }
            i = i + 1;
        }
        assert(self.slots@.subrange(0, i as int) =~= self.slots@);
        out
    }

    /// An empty arena.
    pub fn new() -> (r: Self)
        ensures
            r.wf(),
            r.slots().len() == 0,
            r.free_head() is None,
    {
        Arena { slots: Vec::new(), free: None, len: 0, free_list: Ghost(Seq::empty()) }
    }

    /// An empty arena with room reserved for `capacity` slots.
    pub fn with_capacity(capacity: usize) -> (r: Self)
        ensures
            r.wf(),
            r.slots().len() == 0,
            r.free_head() is None,
    {
        Arena {
            slots: Vec::with_capacity(capacity),
            free: None,
            len: 0,
            free_list: Ghost(Seq::empty()),
        }
    }

    /// The number of stored values.
    pub fn len(&self) -> (r: usize)
        requires
            self.wf(),
        ensures
            r == occupied_count(self.slots()),
    {
        self.len
    }

    /// Whether the arena stores no value.
    pub fn is_empty(&self) -> (r: bool)
        requires
            self.wf(),
        ensures
            r == (occupied_count(self.slots()) == 0),
    {
        self.len == 0
    }
}

impl<K: Key, V> Arena<K, V> {
    /// Right after a value is inserted, its key names exactly that value.
    pub proof fn lemma_insert_then_get(old: Self, new: Self, key: K, value: V)
        requires
            old.wf(),
            Self::inserted(old, new, key, value),
        ensures
            new.valid(key),
            new.value_of(key) == value,
    {
    }

    /// Right after a key's value is removed, the key no longer names
    /// anything.
    pub proof fn lemma_remove_then_absent(old: Self, new: Self, key: K)
        requires
            old.wf(),
            old.valid(key),
            Self::removed(old, new, key),
        ensures
            !new.valid(key),
    {
    }

    /// A retired slot stays retired through an insertion, and its index is
    /// never the one handed out.
    pub proof fn lemma_retired_not_reused(old: Self, new: Self, index: int, key: K, value: V)
        requires
            old.wf(),
            0 <= index < old.slots().len(),
            old.slots()[index] is Retired,
            Self::inserted(old, new, key, value),
        ensures
            key.spec_index() != index,
            new.slots()[index] is Retired,
    {
    }

    /// A retired slot stays retired through a removal.
    pub proof fn lemma_retired_survives_remove(old: Self, new: Self, index: int, key: K)
        requires
            old.wf(),
            0 <= index < old.slots().len(),
            old.slots()[index] is Retired,
            old.valid(key),
            Self::removed(old, new, key),
        ensures
            new.slots()[index] is Retired,
    {
    }

    /// Where a removal advances a slot's version to a different one, a key
    /// captured before the removal does not name the value that is next
    /// inserted in that slot.
    proof fn lemma_stale_key_rejected(
        a: Self,
        b: Self,
        c: Self,
        stale: K,
        fresh: K,
        value: V,
    )
        requires
            a.wf(),
            a.valid(stale),
            Self::removed(a, b, stale),
            Self::inserted(b, c, fresh, value),
            fresh.spec_index() == stale.spec_index(),
            stale.spec_version().next() != Some(stale.spec_version()),
        ensures
            !c.valid(stale),
    {
    }
}

impl<V> Arena<Id<Checked32>, V> {
    /// With checked versions, once a slot is emptied and filled again, a
    /// key captured before the removal is rejected.
    pub proof fn lemma_checked_stale_key_rejected(
        a: Self,
        b: Self,
        c: Self,
        stale: Id<Checked32>,
        fresh: Id<Checked32>,
        value: V,
    )
        requires
            a.wf(),
            a.valid(stale),
            Self::removed(a, b, stale),
            Self::inserted(b, c, fresh, value),
            fresh.spec_index() == stale.spec_index(),
        ensures
            !c.valid(stale),
    {
        Checked32::lemma_next(stale.spec_version());
        Self::lemma_stale_key_rejected(a, b, c, stale, fresh, value);
    }

    /// Removing a value whose version is the last checked one retires its
    /// slot for good.
    pub proof fn lemma_exhausted_slot_retired(a: Self, b: Self, key: Id<Checked32>)
        requires
            a.wf(),
            a.valid(key),
            key.spec_version()@ == u32::MAX,
            Self::removed(a, b, key),
        ensures
            b.slots()[key.spec_index() as int] is Retired,
            b.free_head() == a.free_head(),
    {
        Checked32::lemma_next(key.spec_version());
    }
}

impl<V> Arena<Id<Wrapping<Checked32>>, V> {
    /// With wrapping versions, once a slot is emptied and filled again, a
    /// key captured before the removal is rejected.
    pub proof fn lemma_wrapping_stale_key_rejected(
        a: Self,
        b: Self,
        c: Self,
        stale: Id<Wrapping<Checked32>>,
        fresh: Id<Wrapping<Checked32>>,
        value: V,
    )
        requires
            a.wf(),
            a.valid(stale),
            Self::removed(a, b, stale),
            Self::inserted(b, c, fresh, value),
            fresh.spec_index() == stale.spec_index(),
        ensures
            !c.valid(stale),
    {
        let v = stale.spec_version().0;
        Checked32::lemma_next(v);
        Checked32::lemma_initial();
        if v.next() is None {
            Checked32::lemma_view_injective(v, Checked32::initial());
        }
        Self::lemma_stale_key_rejected(a, b, c, stale, fresh, value);
    }
}

impl<V> Arena<Id<Nil>, V> {
    /// Without versions, a key captured before a slot was emptied and
    /// filled again names the new value.
    pub proof fn lemma_nil_stale_key_aliases(
        a: Self,
        b: Self,
        c: Self,
        stale: Id<Nil>,
        fresh: Id<Nil>,
        value: V,
    )
        requires
            a.wf(),
            a.valid(stale),
            Self::removed(a, b, stale),
            Self::inserted(b, c, fresh, value),
            fresh.spec_index() == stale.spec_index(),
        ensures
            c.valid(stale),
            c.value_of(stale) == value,
    {
    }
}

} // verus!

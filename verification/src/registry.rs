//! Identifier registry: issues monotonically increasing, non-zero identifiers
//! and maps issued identifiers to registered entries.
use crate::ids::RawId;
use std::collections::HashMap;
use vstd::prelude::*;

verus! {

broadcast use vstd::std_specs::hash::group_hash_axioms;

/// Maintains a mapping between issued identifiers and their entries.
///
/// Identifiers are issued in increasing order starting at 1 and are never
/// reissued. The entries are whatever handle the caller stores for an
/// identifier; `purge_stale` drops the entries the caller judges stale.
pub struct IdRegistry<Id, T> {
    last_issued: u64,
    entries: HashMap<u64, T>,
    marker: std::marker::PhantomData<Id>,
}

impl<Id: RawId, T> IdRegistry<Id, T> {
    /// Every entry is registered under an identifier issued already, so that
    /// a freshly issued identifier has no entry yet.
    pub open spec fn keys_issued(&self) -> bool {
        forall|k: u64| #[trigger] self.entries().contains_key(k) ==> k <= self.last_issued()
    }

    /// The last identifier issued (0 when none was).
    pub closed spec fn last_issued(&self) -> u64 {
        self.last_issued
    }

    /// The registered entries, keyed by raw identifier.
    pub closed spec fn entries(&self) -> Map<u64, T> {
        self.entries@
    }

    /// `self` follows `before` by issuing `id`: the identifier after the last
    /// one issued; no entry changes.
    pub open spec fn issued_from(&self, before: &Self, id: Id) -> bool {
        &&& id.spec_raw() == before.last_issued() + 1
        &&& self.last_issued() == id.spec_raw()
        &&& self.entries() == before.entries()
    }

    /// `self` follows `before` by registering `value` under `id`, replacing
    /// any previous entry; no identifier is issued.
    pub open spec fn attached_from(&self, before: &Self, id: Id, value: T) -> bool {
        &&& self.last_issued() == before.last_issued()
        &&& self.entries() == before.entries().insert(id.spec_raw(), value)
    }

    /// `self` follows `before` by taking the entry of `id` out, handed back
    /// as `r` (`None` when there was none).
    pub open spec fn taken_from(&self, before: &Self, id: Id, r: Option<T>) -> bool {
        &&& self.last_issued() == before.last_issued()
        &&& self.entries() == before.entries().remove(id.spec_raw())
        &&& before.entries().contains_key(id.spec_raw()) ==> r == Some(before.entries()[id.spec_raw()])
        &&& !before.entries().contains_key(id.spec_raw()) ==> r is None
    }

    /// The registered entries are finitely many.
    pub proof fn lemma_entries_finite(&self)
        ensures
            self.entries().dom().finite(),
    {
    }

    /// Creates an empty registry with no issued identifiers.
    pub fn new() -> (r: Self)
        ensures
            r.last_issued() == 0,
            r.entries() == Map::<u64, T>::empty(),
            r.keys_issued(),
    {
        IdRegistry { last_issued: 0, entries: HashMap::new(), marker: std::marker::PhantomData }
    }

    /// The last identifier issued (0 when none was).
    pub fn issued(&self) -> (r: u64)
        ensures
            r == self.last_issued(),
    {
        self.last_issued
    }

    /// Issues the next unique identifier without registering an entry.
    pub fn reserve(&mut self) -> (id: Id)
        requires
            old(self).last_issued() < u64::MAX,
        ensures
            final(self).issued_from(old(self), id),
            old(self).keys_issued() ==> final(self).keys_issued() && !final(self).entries().contains_key(
                id.spec_raw(),
            ),
    {
        self.last_issued = self.last_issued + 1;
        Id::from_raw(self.last_issued)
    }

    /// Registers an entry under a freshly issued identifier.
    pub fn register(&mut self, value: T) -> (id: Id)
        requires
            old(self).last_issued() < u64::MAX,
        ensures
            old(self).keys_issued() ==> final(self).keys_issued(),
            id.spec_raw() == old(self).last_issued() + 1,
            final(self).last_issued() == old(self).last_issued() + 1,
            final(self).entries() == old(self).entries().insert(id.spec_raw(), value),
    {
        let id = self.reserve();
        self.attach(id, value);
        id
    }

    /// Associates an identifier with an entry, replacing any previous one.
    pub fn attach(&mut self, id: Id, value: T)
        ensures
            final(self).attached_from(old(self), id, value),
            old(self).keys_issued() && id.spec_raw() <= old(self).last_issued() ==> final(self).keys_issued(),
    {
        let raw = id.raw();
        self.entries.insert(raw, value);
        proof {
            if old(self).keys_issued() && id.spec_raw() <= old(self).last_issued() {
                assert forall|k: u64| #[trigger] self.entries().contains_key(k) implies k <= self.last_issued() by {
                    if k != raw {
                        assert(old(self).entries().contains_key(k));
                    }
                }
            }
        }
    }

    /// Returns the entry registered for the identifier, if any.
    pub fn get(&self, id: Id) -> (r: Option<&T>)
        ensures
            self.entries().contains_key(id.spec_raw()) ==> r == Some(&self.entries()[id.spec_raw()]),
            !self.entries().contains_key(id.spec_raw()) ==> r is None,
    {
        let raw = id.raw();
        self.entries.get(&raw)
    }

    /// Returns `true` when an entry is registered for the identifier.
    pub fn contains(&self, id: Id) -> (r: bool)
        ensures
            r == self.entries().contains_key(id.spec_raw()),
    {
        let raw = id.raw();
        self.entries.contains_key(&raw)
    }

    /// Removes the entry for the identifier and hands it back.
    pub fn take(&mut self, id: Id) -> (r: Option<T>)
        ensures
            final(self).taken_from(old(self), id, r),
            old(self).keys_issued() ==> final(self).keys_issued(),
    {
        let raw = id.raw();
        let r = self.entries.remove(&raw);
        proof {
            if old(self).keys_issued() {
                assert forall|k: u64| #[trigger] self.entries().contains_key(k) implies k <= self.last_issued() by {
                    assert(old(self).entries().contains_key(k));
                }
            }
        }
        r
    }

    /// Removes the entry for the identifier; `true` when one was present.
    pub fn remove(&mut self, id: Id) -> (r: bool)
        ensures
            old(self).keys_issued() ==> final(self).keys_issued(),
            final(self).last_issued() == old(self).last_issued(),
            final(self).entries() == old(self).entries().remove(id.spec_raw()),
            r == old(self).entries().contains_key(id.spec_raw()),
    {
        let taken = self.take(id);
        taken.is_some()
    }

    /// Drops every entry that `is_live` judges stale and returns how many were
    /// dropped. The remaining entries are unchanged.
    pub fn purge_stale<F: Fn(&T) -> bool>(&mut self, is_live: F) -> (removed: usize)
        requires
            forall|v: &T| #[trigger] is_live.requires((v,)),
        ensures
            old(self).keys_issued() ==> final(self).keys_issued(),
            final(self).last_issued() == old(self).last_issued(),
            final(self).entries().dom().subset_of(old(self).entries().dom()),
            forall|k: u64| #[trigger] final(self).entries().contains_key(k) ==> {
                &&& final(self).entries()[k] == old(self).entries()[k]
                &&& is_live.ensures((&old(self).entries()[k],), true)
            },
            forall|k: u64|
                #[trigger] old(self).entries().contains_key(k) && !final(self).entries().contains_key(k)
                    ==> is_live.ensures((&old(self).entries()[k],), false),
            removed == old(self).entries().len() - final(self).entries().len(),
    {
        let ghost original = self.entries@;
        let mut keys: Vec<u64> = Vec::new();
        proof {
            vstd::std_specs::hash::axiom_spec_keys_iter(&self.entries);
        }
        for k in it: self.entries.keys()
            invariant
                keys@.len() == it.index(),
                forall|j: int| 0 <= j < it.index() ==> keys@[j] == *it.seq()[j],
                it.seq().unref().to_set() == original.dom(),
                forall|j: int| 0 <= j < keys.len() ==> original.contains_key(#[trigger] keys@[j]),
                forall|x: u64| #[trigger] original.contains_key(x) ==> keys@.contains(x) || exists|j: int|
                    it.index() <= j < it.seq().len() && *it.seq()[j] == x,
            ensures
                forall|x: u64| #[trigger] original.contains_key(x) ==> keys@.contains(x),
                forall|j: int| 0 <= j < keys.len() ==> original.contains_key(#[trigger] keys@[j]),
        {
            proof {
                assert(it.seq().unref()[it.index()] == *k);
                assert(it.seq().unref().contains(*k));
                assert(original.contains_key(*k));
            }
            let ghost keys_before = keys@;
            keys.push(*k);
            proof {
                assert forall|x: u64| #[trigger] original.contains_key(x) implies keys@.contains(x) || exists|j: int|
                    it.index() + 1 <= j < it.seq().len() && *it.seq()[j] == x by {
                    if !keys@.contains(x) {
                        if keys_before.contains(x) {
                            let a = choose|a: int| 0 <= a < keys_before.len() && keys_before[a] == x;
                            assert(keys@[a] == x);
                        }
                        let j = choose|j: int| it.index() <= j < it.seq().len() && *it.seq()[j] == x;
                        if j == it.index() {
                            assert(keys@[keys.len() - 1] == x);
                        }
                    }
                }
            }
        }
        let total = self.entries.len();
        let mut removed: usize = 0;
        let mut i: usize = 0;
        while i < keys.len()
            invariant
                0 <= i <= keys.len(),
                self.last_issued == old(self).last_issued,
                self.entries@.dom().subset_of(original.dom()),
                removed + self.entries@.len() == original.len(),
                total == original.len(),
                forall|k: u64| original.contains_key(k) ==> keys@.contains(k),
                forall|k: u64| #[trigger] self.entries@.contains_key(k) ==> self.entries@[k] == original[k],
                forall|j: int| 0 <= j < i && #[trigger] self.entries@.contains_key(keys@[j])
                    ==> is_live.ensures((&original[keys@[j]],), true),
                forall|k: u64| #[trigger] original.contains_key(k) && !self.entries@.contains_key(k)
                    ==> is_live.ensures((&original[k],), false),
                forall|v: &T| #[trigger] is_live.requires((v,)),
            decreases keys.len() - i,
        {
            let k = keys[i];
            let live = match self.entries.get(&k) {
                Some(v) => is_live(v),
                None => true,
            };
            if !live {
                self.entries.remove(&k);
                removed = removed + 1;
            }
            i = i + 1;
        }
        proof {
            if old(self).keys_issued() {
                assert forall|k: u64| #[trigger] self.entries().contains_key(k) implies k <= self.last_issued() by {
                    assert(old(self).entries().contains_key(k));
                }
            }
        }
        removed
    }

    /// Returns the number of registered entries.
    pub fn len(&self) -> (r: usize)
        ensures
            r == self.entries().len(),
    {
        self.entries.len()
    }

    /// Returns `true` when no entry is registered.
    pub fn is_empty(&self) -> (r: bool)
        ensures
            r == (self.entries().len() == 0),
    {
        self.entries.len() == 0
    }
}

/// Identifiers only grow: of two identifiers issued one after the other, the
/// second is larger, and both are non-zero.
pub proof fn law_identifiers_increase<Id: RawId, T>(
    a: IdRegistry<Id, T>,
    b: IdRegistry<Id, T>,
    c: IdRegistry<Id, T>,
    first: Id,
    second: Id,
)
    requires
        b.issued_from(&a, first),
        c.issued_from(&b, second),
    ensures
        0 < first.spec_raw() < second.spec_raw(),
        a.last_issued() < first.spec_raw(),
{
}

/// An entry registered under an identifier is what taking that identifier
/// hands back, and taking it leaves the registry as it was without that
/// identifier.
pub proof fn law_take_returns_attached<Id: RawId, T>(
    a: IdRegistry<Id, T>,
    b: IdRegistry<Id, T>,
    c: IdRegistry<Id, T>,
    id: Id,
    value: T,
    r: Option<T>,
)
    requires
        b.attached_from(&a, id, value),
        c.taken_from(&b, id, r),
    ensures
        r == Some(value),
        c.entries() == a.entries().remove(id.spec_raw()),
        c.last_issued() == a.last_issued(),
{
    assert(c.entries() =~= a.entries().remove(id.spec_raw()));
}

} // verus!

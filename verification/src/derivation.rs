//! Derivations: the computed values and reactions that track observables.
use crate::ids::{DerivationId, ObservableId, RawId, ReactionId};
use crate::host::Host;
use crate::observable::{lemma_swap_remove_first_unique, observer_attached, observer_removed, swap_remove_first, ObservableKind};
use crate::runtime::{AllowStateReadsGuard, Fault, MobxRuntime};
use vstd::prelude::*;

verus! {

/// Freshness of a derivation relative to its dependencies.
#[derive(Clone, Copy, Debug, PartialEq, Eq, Structural)]
pub enum DerivationState {
    NotTracking,
    UpToDate,
    PossiblyStale,
    Stale,
}

impl DerivationState {
    /// The state of a derivation that has not run yet: `NotTracking`.
    pub fn initial() -> (s: Self)
        ensures
            s == DerivationState::NotTracking,
    {
        DerivationState::NotTracking
    }

    /// A fresh derivation is one a change must mark stale: `UpToDate` or
    /// `PossiblyStale`.
    pub open spec fn is_fresh(self) -> bool {
        self == DerivationState::UpToDate || self == DerivationState::PossiblyStale
    }
}

/// What a derivation is: a reaction, or the derivation side of a computed
/// value together with the observable that publishes its value.
#[derive(Clone, Copy, Debug, PartialEq, Eq, Structural)]
pub enum DerivationKind {
    Reaction(ReactionId),
    Computed(ObservableId),
}

/// Bookkeeping the runtime keeps for one derivation.
pub struct DerivationRecord {
    pub name: String,
    pub kind: DerivationKind,
    pub observing: Vec<ObservableId>,
    pub new_observing: Vec<ObservableId>,
    pub state: DerivationState,
    pub run_id: u64,
    pub unbound_deps_count: usize,
    pub requires_observable: bool,
    pub keep_alive: bool,
    pub is_computing: bool,
}

impl DerivationRecord {
    /// A record for a derivation that has not run yet.
    pub(crate) fn new(name: String, kind: DerivationKind, requires_observable: bool, keep_alive: bool) -> (r: Self)
        ensures
            r.name@ == name@,
            r.kind == kind,
            r.observing@ == Seq::<ObservableId>::empty(),
            r.new_observing@ == Seq::<ObservableId>::empty(),
            r.state == DerivationState::NotTracking,
            r.run_id == 0,
            r.unbound_deps_count == 0,
            r.requires_observable == requires_observable,
            r.keep_alive == keep_alive,
            !r.is_computing,
    {
        DerivationRecord {
            name,
            kind,
            observing: Vec::new(),
            new_observing: Vec::new(),
            state: DerivationState::NotTracking,
            run_id: 0,
            unbound_deps_count: 0,
            requires_observable,
            keep_alive,
            is_computing: false,
        }
    }
}

} // verus!

verus! {

/// The number of dependencies the derivations of `m` list, all together.
pub open spec fn dependency_count(m: Map<u64, DerivationRecord>) -> nat
    decreases m.dom().len(),
{
    if m.dom().finite() && m.dom().len() > 0 {
        let k = m.dom().choose();
        proof {
            assert(m.remove(k).dom() =~= m.dom().remove(k));
        }
        m[k].observing@.len() + dependency_count(m.remove(k))
    } else {
        0
    }
}

/// The count splits into any one derivation's dependencies and the rest.
pub proof fn lemma_dependency_count_remove(m: Map<u64, DerivationRecord>, k: u64)
    requires
        m.dom().finite(),
        m.dom().contains(k),
    ensures
        dependency_count(m) == m[k].observing@.len() + dependency_count(m.remove(k)),
    decreases m.dom().len(),
{
    let j = m.dom().choose();
    assert(m.remove(j).dom() =~= m.dom().remove(j));
    if j != k {
        assert(m.remove(k).dom() =~= m.dom().remove(k));
        lemma_dependency_count_remove(m.remove(j), k);
        lemma_dependency_count_remove(m.remove(k), j);
        assert(m.remove(j).remove(k) =~= m.remove(k).remove(j));
    }
}

/// Replacing one derivation's record changes the count by the difference of
/// their dependencies.
pub proof fn lemma_dependency_count_insert(m: Map<u64, DerivationRecord>, k: u64, r: DerivationRecord)
    requires
        m.dom().finite(),
    ensures
        dependency_count(m.insert(k, r)) == r.observing@.len() + dependency_count(m.remove(k)),
{
    let n = m.insert(k, r);
    assert(n.dom() =~= m.dom().insert(k));
    lemma_dependency_count_remove(n, k);
    assert(n.remove(k) =~= m.remove(k));
}

/// Whether `v` holds `o`.
pub fn contains_observable(v: &Vec<ObservableId>, o: ObservableId) -> (r: bool)
    ensures
        r == v@.contains(o),
{
    let mut i: usize = 0;
    while i < v.len()
        invariant
            0 <= i <= v.len(),
            forall|j: int| 0 <= j < i ==> v@[j] != o,
        decreases v.len() - i,
    {
        if v[i] == o {
            return true;
        }
        i = i + 1;
    }
    false
}

/// `s` without repeated elements: each element's first occurrence, in order.
pub open spec fn dedup<A>(s: Seq<A>) -> Seq<A>
    decreases s.len(),
{
    if s.len() == 0 {
        s
    } else {
        let rest = dedup(s.drop_last());
        if rest.contains(s.last()) {
            rest
        } else {
            rest.push(s.last())
        }
    }
}

proof fn lemma_dedup_contains<A>(s: Seq<A>, x: A)
    ensures
        dedup(s).contains(x) <==> s.contains(x),
        dedup(s).no_duplicates(),
    decreases s.len(),
{
    if s.len() > 0 {
        let init = s.drop_last();
        lemma_dedup_contains(init, x);
        lemma_dedup_contains(init, s.last());
        let rest = dedup(init);
        assert(s =~= init.push(s.last()));
        assert(s.contains(x) <==> (init.contains(x) || x == s.last())) by {
            if s.contains(x) && x != s.last() {
                let i = choose|i: int| 0 <= i < s.len() && s[i] == x;
                assert(init[i] == x);
            }
            if init.contains(x) {
                let i = choose|i: int| 0 <= i < init.len() && init[i] == x;
                assert(s[i] == x);
            }
            if x == s.last() {
                assert(s[s.len() - 1] == x);
            }
        }
        if !rest.contains(s.last()) {
            let pushed = rest.push(s.last());
            assert forall|i: int, j: int| 0 <= i < j < pushed.len() implies pushed[i] != pushed[j] by {
                if j == rest.len() {
                    assert(pushed[i] == rest[i]);
                }
            }
            assert(pushed.contains(x) <==> (rest.contains(x) || x == s.last())) by {
                if pushed.contains(x) && x != s.last() {
                    let i = choose|i: int| 0 <= i < pushed.len() && pushed[i] == x;
                    assert(rest[i] == x);
                }
                if rest.contains(x) {
                    let i = choose|i: int| 0 <= i < rest.len() && rest[i] == x;
                    assert(pushed[i] == x);
                }
                if x == s.last() {
                    assert(pushed[rest.len() as int] == x);
                }
            }
        }
    }
}

/// Growing a prefix by one element adds exactly that element.
pub proof fn lemma_take_next_contains<A>(s: Seq<A>, n: int, x: A)
    requires
        0 <= n < s.len(),
    ensures
        s.take(n + 1).contains(x) <==> (s.take(n).contains(x) || s[n] == x),
{
    let longer = s.take(n + 1);
    let shorter = s.take(n);
    assert(longer =~= shorter.push(s[n]));
    if longer.contains(x) {
        let k = choose|k: int| 0 <= k < longer.len() && longer[k] == x;
        if k < n {
            assert(shorter[k] == x);
        }
    }
    if shorter.contains(x) {
        let k = choose|k: int| 0 <= k < shorter.len() && shorter[k] == x;
        assert(longer[k] == x);
    }
    if s[n] == x {
        assert(longer[n] == x);
    }
}

/// An element of a list without repeats does not occur before its index.
pub proof fn lemma_no_dup_not_before<A>(s: Seq<A>, n: int)
    requires
        0 <= n < s.len(),
        s.no_duplicates(),
    ensures
        !s.take(n).contains(s[n]),
{
    if s.take(n).contains(s[n]) {
        let k = choose|k: int| 0 <= k < n && s.take(n)[k] == s[n];
        assert(s[k] == s[n]);
    }
}

/// Keeps the first occurrence of each element of `v`, in order.
pub fn dedup_observables(v: Vec<ObservableId>) -> (r: Vec<ObservableId>)
    ensures
        r@ == dedup(v@),
        r@.no_duplicates(),
        forall|o: ObservableId| r@.contains(o) <==> v@.contains(o),
{
    let mut r: Vec<ObservableId> = Vec::new();
    let mut i: usize = 0;
    while i < v.len()
        invariant
            0 <= i <= v.len(),
            r@ == dedup(v@.take(i as int)),
        decreases v.len() - i,
    {
        let o = v[i];
        proof {
            assert(v@.take(i + 1).drop_last() =~= v@.take(i as int));
            lemma_dedup_contains(v@.take(i as int), o);
        }
        if !contains_observable(&r, o) {
            r.push(o);
        }
        i = i + 1;
    }
    proof {
        assert(v@.take(v.len() as int) =~= v@);
        assert forall|o: ObservableId| r@.contains(o) <==> v@.contains(o) by {
            lemma_dedup_contains(v@, o);
        }
        lemma_dedup_contains(v@, v@[0]);
    }
    r
}

} // verus!

verus! {

impl MobxRuntime {
    /// The tables of entities are finite.
    pub proof fn lemma_tables_finite(&self)
        ensures
            self.derivation_table().dom().finite(),
    {
        self.derivations.lemma_entries_finite();
    }

    /// The number of dependencies all derivations list, together.
    pub open(crate) spec fn dependencies_total(&self) -> nat {
        dependency_count(self.derivation_table())
    }

    /// The total of dependencies once `d` has bound its collected ones: the
    /// bound that binding never exceeds, since letting go of a dependency
    /// only ever removes dependencies.
    pub open(crate) spec fn binding_measure(&self, d: DerivationId) -> nat {
        if self.has_derivation(d) {
            dependency_count(self.derivation_table().remove(d.id_value())) + dedup(
                self.derivation(d).new_observing@,
            ).len()
        } else {
            dependency_count(self.derivation_table())
        }
    }

    /// Every derivation found in both `before` and `self` keeps its run id,
    /// its computing flag, its name and whether it must track an
    /// observable, and its state stays or becomes
    /// `NotTracking`.
    pub open(crate) spec fn marks_kept(&self, before: &Self) -> bool {
        forall|k: u64|
            #![trigger self.derivation_table()[k]]
            #![trigger before.derivation_table()[k]]
            self.derivation_table().contains_key(k) && before.derivation_table().contains_key(k) ==> {
                let a = self.derivation_table()[k];
                let b = before.derivation_table()[k];
                &&& a.run_id == b.run_id
                &&& a.is_computing == b.is_computing
                &&& a.name == b.name
                &&& a.requires_observable == b.requires_observable
                &&& (a.state == b.state || a.state == DerivationState::NotTracking)
            }
    }

    /// No observable publishes `d`: it is not the derivation of a computed
    /// value (a reaction's derivation, for instance), so no suspension
    /// reaches it.
    pub open(crate) spec fn unpublished(&self, d: DerivationId) -> bool {
        forall|o: ObservableId|
            #[trigger] self.has_observable(o) && self.observable(o).kind is Computed ==> self.observable(
                o,
            ).kind->Computed_0 != d
    }

    /// From `before` to `self`: the observables keep their kinds; every
    /// derivation other than `e` that no observable publishes keeps its
    /// record and its place (or absence) among the observers of every
    /// observable; lists of observers without repeats stay without repeats.
    pub open(crate) spec fn cascade_frame(&self, before: &Self, e: DerivationId) -> bool {
        &&& self.observable_table().dom() == before.observable_table().dom()
        &&& self.derivation_table().dom() == before.derivation_table().dom()
        &&& forall|o: ObservableId| #[trigger]
            before.has_observable(o) ==> self.observable(o).kind == before.observable(o).kind
        &&& forall|x: DerivationId| #[trigger]
            before.has_derivation(x) && x != e && before.unpublished(x) ==> self.derivation(x) == before.derivation(x)
        &&& forall|o: ObservableId, x: DerivationId|
            #![trigger self.observers_of(o).contains(x)]
            #![trigger before.observers_of(o).contains(x)]
            before.has_observable(o) && x != e && before.unpublished(x) ==> self.observers_of(o).contains(x)
                == before.observers_of(o).contains(x)
        &&& forall|o: ObservableId| #[trigger]
            before.has_observable(o) && before.observers_of(o).no_duplicates() ==> self.observers_of(
                o,
            ).no_duplicates()
    }

    /// The record of a derivation.
    pub open(crate) spec fn derivation(&self, d: DerivationId) -> DerivationRecord {
        self.derivation_table()[d.id_value()]
    }

    /// Whether the runtime has a record for the derivation.
    pub open(crate) spec fn has_derivation(&self, d: DerivationId) -> bool {
        self.derivation_table().contains_key(d.id_value())
    }
}

} // verus!

verus! {

impl MobxRuntime {
    /// Removing `d` from the observers of `o` suspends nothing: `o` is not
    /// registered, is an atom, or keeps another observer.
    pub open(crate) spec fn unobserving_suspends_nothing(&self, o: ObservableId, d: DerivationId) -> bool {
        self.has_observable(o) ==> self.observable(o).kind == ObservableKind::Atom || swap_remove_first(
            self.observers_of(o),
            d,
        ).len() > 0
    }

    /// Binding `d` now suspends nothing: it lists its dependencies without
    /// repeats, and no dependency it drops is a computed value left without
    /// observers.
    pub open(crate) spec fn binding_suspends_nothing(&self, d: DerivationId) -> bool {
        let rec = self.derivation(d);
        let new = dedup(rec.new_observing@);
        &&& rec.observing@.no_duplicates()
        &&& forall|o: ObservableId|
            #[trigger] rec.observing@.contains(o) && !new.contains(o) ==> self.unobserving_suspends_nothing(o, d)
    }

    /// The tables of `self` are those of `before` after binding `d`: the
    /// collected dependencies, without repeats, became its dependencies; it
    /// was removed from the observers of the dependencies it dropped and
    /// attached to those it kept or gained; no other record changed.
    pub open(crate) spec fn graph_bound_from(&self, before: &Self, d: DerivationId) -> bool {
        let prior = before.derivation(d);
        let after = self.derivation(d);
        let new = dedup(prior.new_observing@);
        let prev = prior.observing@;
        &&& self.derivation_table() == before.derivation_table().insert(d.id_value(), after)
        &&& after.observing@ == new
        &&& after.new_observing@ == prev
        &&& after.unbound_deps_count == new.len()
        &&& after.state == if prior.requires_observable && new.len() == 0 {
            DerivationState::NotTracking
        } else {
            prior.state
        }
        &&& after.name == prior.name
        &&& after.kind == prior.kind
        &&& after.run_id == prior.run_id
        &&& after.requires_observable == prior.requires_observable
        &&& after.keep_alive == prior.keep_alive
        &&& after.is_computing == prior.is_computing
        &&& self.observable_table().dom() == before.observable_table().dom()
        &&& forall|o: ObservableId| #[trigger] before.has_observable(o) ==> if new.contains(o) {
            observer_attached(before.observable(o), self.observable(o), d)
        } else if prev.contains(o) {
            observer_removed(before.observable(o), self.observable(o), d)
        } else {
            self.observable(o) == before.observable(o)
        }
        &&& self.reaction_table() == before.reaction_table()
        &&& self.issued_counts() == before.issued_counts()
        &&& self.pending() == before.pending()
        &&& self.warnings() == before.warnings()
        &&& self.listeners() == before.listeners()
    }

    /// The record of `d` in `self` is its record in `before` once its
    /// collected dependencies, without repeats, became its dependencies: the
    /// previous ones are kept as collected, a derivation that must track an
    /// observable and tracks none stops tracking, and the rest is kept.
    pub open(crate) spec fn record_bound(&self, before: &Self, d: DerivationId) -> bool {
        let prior = before.derivation(d);
        let after = self.derivation(d);
        let new = dedup(prior.new_observing@);
        &&& self.has_derivation(d)
        &&& after.observing@ == new
        &&& after.new_observing@ == prior.observing@
        &&& after.unbound_deps_count == new.len()
        &&& after.state == if prior.requires_observable && new.len() == 0 {
            DerivationState::NotTracking
        } else {
            prior.state
        }
        &&& after.name == prior.name
        &&& after.kind == prior.kind
        &&& after.run_id == prior.run_id
        &&& after.requires_observable == prior.requires_observable
        &&& after.keep_alive == prior.keep_alive
        &&& after.is_computing == prior.is_computing
    }

    /// Binding `d` from `before` left `self`, even where it suspends further
    /// computed values: `d` has its bound record, it is no longer among the
    /// observers of a dropped dependency that listed it once, and it is
    /// among the observers of each dependency it has.
    pub open(crate) spec fn binding_law(&self, before: &Self, d: DerivationId) -> bool {
        let prior = before.derivation(d);
        let new = dedup(prior.new_observing@);
        &&& self.record_bound(before, d)
        &&& forall|o: ObservableId| #[trigger]
            prior.observing@.contains(o) && !new.contains(o) && before.has_observable(o) && before.observers_of(
                o,
            ).no_duplicates() ==> !self.observers_of(o).contains(d)
        &&& forall|o: ObservableId| #[trigger]
            new.contains(o) && self.has_observable(o) ==> self.observers_of(o).contains(d)
    }

    /// `self` is `before` after binding `d` (see `graph_bound_from`), with
    /// every flag, counter and the tracking derivation unchanged.
    pub open(crate) spec fn bound_from(&self, before: &Self, d: DerivationId) -> bool {
        &&& self.graph_bound_from(before, d)
        &&& self.same_scalars(before)
        &&& self.tracking() == before.tracking()
    }
}

/// What `begin_tracking` saved, for `end_tracking` to restore.
pub struct TrackFrame {
    reads_guard: AllowStateReadsGuard,
    previous_tracking: Option<DerivationId>,
}

impl TrackFrame {
    /// The read permission found when tracking began.
    pub closed spec fn saved_reads(&self) -> bool {
        self.reads_guard.previous()
    }

    /// The tracking derivation found when tracking began.
    pub closed spec fn saved_tracking(&self) -> Option<DerivationId> {
        self.previous_tracking
    }
}

impl MobxRuntime {
    /// The dependencies the derivation observes, in the order it first read
    /// them (empty when it has no record).
    pub fn derivation_observing(&self, d: DerivationId) -> (r: Vec<ObservableId>)
        ensures
            self.has_derivation(d) ==> r@ == self.derivation(d).observing@,
            !self.has_derivation(d) ==> r@ == Seq::<ObservableId>::empty(),
    {
        match self.derivations.get(d) {
            Some(rec) => rec.observing.clone(),
            None => Vec::new(),
        }
    }

    /// The state of the derivation; `None` when it has no record.
    pub fn derivation_state(&self, d: DerivationId) -> (r: Option<DerivationState>)
        ensures
            r == (if self.has_derivation(d) {
                Some(self.derivation(d).state)
            } else {
                None::<DerivationState>
            }),
    {
        match self.derivations.get(d) {
            Some(rec) => Some(rec.state),
            None => None,
        }
    }

    /// Decides whether the derivation must (re)compute, from its state; a
    /// possibly stale derivation is settled as stale.
    pub fn should_compute(&mut self, d: DerivationId) -> (r: bool)
        ensures
            !old(self).has_derivation(d) ==> !r && *final(self) == *old(self),
            old(self).has_derivation(d) && old(self).derivation(d).state != DerivationState::PossiblyStale ==> *final(self) == *old(self),
            old(self).has_derivation(d) ==> {
                let before = old(self).derivation(d);
                &&& r == (before.state != DerivationState::UpToDate)
                &&& before.state == DerivationState::PossiblyStale ==> final(self).derivation_table()
                    == old(self).derivation_table().insert(
                    d.id_value(),
                    DerivationRecord { state: DerivationState::Stale, ..before },
                )
                &&& before.state != DerivationState::PossiblyStale ==> final(self).derivation_table()
                    == old(self).derivation_table()
            },
            final(self).observable_table() == old(self).observable_table(),
            final(self).reaction_table() == old(self).reaction_table(),
            final(self).issued_counts() == old(self).issued_counts(),
            final(self).same_scalars(old(self)),
            final(self).pending() == old(self).pending(),
            final(self).warnings() == old(self).warnings(),
            final(self).listeners() == old(self).listeners(),
            final(self).tracking() == old(self).tracking(),
    {
        let state = match self.derivations.get(d) {
            Some(rec) => rec.state,
            None => {
                return false;
            },
        };
        match state {
            DerivationState::NotTracking => true,
            DerivationState::UpToDate => false,
            DerivationState::PossiblyStale => {
                self.set_derivation_state(d, DerivationState::Stale);
                true
            },
            DerivationState::Stale => true,
        }
    }

    /// Sets the state of a derivation.
    pub fn set_derivation_state(&mut self, d: DerivationId, state: DerivationState)
        ensures
            final(self).spy_log() == old(self).spy_log(),
            !old(self).has_derivation(d) ==> final(self).derivation_table() == old(self).derivation_table(),
            old(self).has_derivation(d) ==> final(self).derivation_table() == old(self).derivation_table().insert(
                d.id_value(),
                DerivationRecord { state, ..old(self).derivation(d) },
            ),
            final(self).next_listener() == old(self).next_listener(),
            final(self).observable_table() == old(self).observable_table(),
            final(self).reaction_table() == old(self).reaction_table(),
            final(self).issued_counts() == old(self).issued_counts(),
            final(self).same_scalars(old(self)),
            final(self).pending() == old(self).pending(),
            final(self).warnings() == old(self).warnings(),
            final(self).listeners() == old(self).listeners(),
            final(self).tracking() == old(self).tracking(),
    {
        if let Some(mut rec) = self.derivations.take(d) {
            rec.state = state;
            self.derivations.attach(d, rec);
            proof {
                assert(self.derivation_table() =~= old(self).derivation_table().insert(
                    d.id_value(),
                    DerivationRecord { state, ..old(self).derivation(d) },
                ));
            }
        }
    }

    /// `self` follows `before` by the start of a tracked run of `d`: `d`'s
    /// collected dependencies are cleared, it gets the next run id and counts
    /// as up to date; reads are allowed and `d` is the tracking derivation;
    /// nothing else changed but the reactions' table and `d`'s computing
    /// flag, which are not described.
    pub open(crate) spec fn tracking_begun(&self, before: &Self, d: DerivationId) -> bool {
        &&& self.run_id_spec() == before.run_id_spec() + 1
        &&& self.allows_reads()
        &&& self.tracking() == Some(d)
        &&& !before.has_derivation(d) ==> self.derivation_table() == before.derivation_table()
        &&& before.has_derivation(d) ==> {
            let prior = before.derivation(d);
            let after = self.derivation(d);
            &&& self.derivation_table() == before.derivation_table().insert(d.id_value(), after)
            &&& after.new_observing@ == Seq::<ObservableId>::empty()
            &&& after.unbound_deps_count == 0
            &&& after.run_id == self.run_id_spec()
            &&& after.state == DerivationState::UpToDate
            &&& after.observing == prior.observing
            &&& after.kind == prior.kind
            &&& after.name == prior.name
            &&& after.requires_observable == prior.requires_observable
            &&& after.keep_alive == prior.keep_alive
        }
        &&& self.observable_table() == before.observable_table()
        &&& self.issued_counts() == before.issued_counts()
        &&& self.batch_spec() == before.batch_spec()
        &&& self.allows_changes() == before.allows_changes()
        &&& self.policy() == before.policy()
        &&& self.running() == before.running()
        &&& self.pending() == before.pending()
        &&& self.warnings() == before.warnings()
        &&& self.listeners() == before.listeners()
        &&& self.next_listener() == before.next_listener()
    }

    /// Starts a tracked run of the derivation: its collected dependencies are
    /// cleared, it gets the next run id, it counts as up to date, reads are
    /// allowed, and it becomes the tracking derivation. The frame remembers
    /// the read permission and the tracking derivation found.
    pub fn begin_tracking(&mut self, d: DerivationId) -> (r: Result<TrackFrame, Fault>)
        ensures
            final(self).spy_log() == old(self).spy_log(),
            old(self).run_id_spec() == u64::MAX ==> r == Err::<TrackFrame, Fault>(Fault::CounterOverflow)
                && *final(self) == *old(self),
            old(self).run_id_spec() < u64::MAX ==> (r matches Ok(frame) && {
                &&& frame.saved_reads() == old(self).allows_reads()
                &&& frame.saved_tracking() == old(self).tracking()
                &&& final(self).tracking_begun(old(self), d)
                &&& old(self).has_derivation(d) ==> final(self).derivation(d).is_computing == old(self).derivation(
                    d,
                ).is_computing
            }),
            final(self).reaction_table() == old(self).reaction_table(),
    {
        if self.run_id == u64::MAX {
            return Err(Fault::CounterOverflow);
        }
        let run_id = self.next_run_id();
        if let Some(mut rec) = self.derivations.take(d) {
            rec.new_observing = Vec::new();
            rec.unbound_deps_count = 0;
            rec.run_id = run_id;
            rec.state = DerivationState::UpToDate;
            self.derivations.attach(d, rec);
            proof {
                assert(self.derivation_table() =~= old(self).derivation_table().insert(
                    d.id_value(),
                    self.derivation(d),
                ));
            }
        } else {
            proof {
                assert(self.derivation_table() =~= old(self).derivation_table());
            }
        }
        let ghost stamped = *self;
        let reads_guard = AllowStateReadsGuard::new(self, true);
        let previous_tracking = self.swap_tracking_derivation(Some(d));
        let frame = TrackFrame { reads_guard, previous_tracking };
        proof {
            assert(self.derivation_table() == stamped.derivation_table());
            assert(self.observable_table() == old(self).observable_table());
            assert(frame.saved_reads() == old(self).allows_reads());
            assert(frame.saved_tracking() == old(self).tracking());
            assert(self.tracking_begun(old(self), d));
        }
        Ok(frame)
    }

    /// Ends a tracked run: restores the tracking derivation, binds the
    /// collected dependencies, and restores the read permission, as the
    /// frame remembers them.
    pub fn end_tracking<H: Host>(&mut self, host: &H, d: DerivationId, frame: TrackFrame) -> (r: Result<(), Fault>)
        ensures
            old(self).has_derivation(d) && old(self).unpublished(d) ==> final(self).binding_law(old(self), d),
            final(self).spy_log() == old(self).spy_log(),
            final(self).tracking() == frame.saved_tracking(),
            final(self).allows_reads() == frame.saved_reads(),
            final(self).run_id_spec() == old(self).run_id_spec(),
            final(self).batch_spec() == old(self).batch_spec(),
            final(self).allows_changes() == old(self).allows_changes(),
            final(self).policy() == old(self).policy(),
            final(self).running() == old(self).running(),
            final(self).reaction_table() == old(self).reaction_table(),
            final(self).issued_counts() == old(self).issued_counts(),
            final(self).pending() == old(self).pending(),
            final(self).warnings() == old(self).warnings(),
            final(self).listeners() == old(self).listeners(),
            final(self).next_listener() == old(self).next_listener(),
            final(self).derivation_table().dom() == old(self).derivation_table().dom(),
            final(self).observable_table().dom() == old(self).observable_table().dom(),
            final(self).marks_kept(old(self)),
            r is Ok,
            old(self).has_derivation(d) ==> forall|o: ObservableId|
                #[trigger] dedup(old(self).derivation(d).new_observing@).contains(o) && final(self).has_observable(o)
                    ==> final(self).observers_of(o).contains(d) && final(self).observable(o).is_being_observed,
            !old(self).has_derivation(d) ==> final(self).observable_table() == old(self).observable_table()
                && final(self).derivation_table() == old(self).derivation_table(),
            old(self).has_derivation(d) && old(self).binding_suspends_nothing(d) ==> final(self).graph_bound_from(
                old(self),
                d,
            ),
    {
        let TrackFrame { reads_guard, previous_tracking } = frame;
        self.swap_tracking_derivation(previous_tracking);
        let ghost restored = *self;
        let bound = self.bind_dependencies(host, d);
        let ghost bound_state = *self;
        reads_guard.restore(self);
        proof {
            if old(self).has_derivation(d) && old(self).unpublished(d) {
                assert(restored.unpublished(d)) by {
                    assert(restored.observable_table() == old(self).observable_table());
                    assert forall|o: ObservableId| #[trigger]
                        restored.has_observable(o) && restored.observable(o).kind is Computed implies restored.observable(o).kind->Computed_0
                        != d by {
                        assert(old(self).has_observable(o));
                    }
                }
                assert(bound_state.binding_law(&restored, d));
                let new = dedup(old(self).derivation(d).new_observing@);
                assert forall|o: ObservableId| #[trigger]
                    new.contains(o) && self.has_observable(o) implies self.observers_of(o).contains(d) by {
                    assert(bound_state.has_observable(o));
                }
                assert forall|o: ObservableId| #[trigger]
                    old(self).derivation(d).observing@.contains(o) && !new.contains(o) && old(self).has_observable(o)
                        && old(self).observers_of(o).no_duplicates() implies !self.observers_of(o).contains(d) by {
                    assert(restored.has_observable(o));
                }
                assert(self.binding_law(old(self), d));
            }
        }
        proof {
            if old(self).has_derivation(d) && old(self).binding_suspends_nothing(d) {
                assert(restored.binding_suspends_nothing(d));
                assert(bound_state.graph_bound_from(&restored, d));
                let new = dedup(old(self).derivation(d).new_observing@);
                let prev = old(self).derivation(d).observing@;
                assert forall|o: ObservableId| #[trigger] old(self).has_observable(o) implies if new.contains(o) {
                    observer_attached(old(self).observable(o), self.observable(o), d)
                } else if prev.contains(o) {
                    observer_removed(old(self).observable(o), self.observable(o), d)
                } else {
                    self.observable(o) == old(self).observable(o)
                } by {
                    assert(restored.has_observable(o));
                }
                assert(self.graph_bound_from(old(self), d));
            }
        }
        bound
    }


    /// Makes the derivation's collected dependencies its dependencies: the
    /// collected list without repeats replaces the previous one, the
    /// derivation stops observing what it no longer reads and observes what
    /// it reads.
    pub fn bind_dependencies<H: Host>(&mut self, host: &H, d: DerivationId) -> (r: Result<(), Fault>)
        ensures
            old(self).has_derivation(d) && old(self).unpublished(d) ==> final(self).binding_law(old(self), d),
            final(self).cascade_frame(old(self), d),
            final(self).spy_log() == old(self).spy_log(),
            r is Ok,
            !old(self).has_derivation(d) ==> *final(self) == *old(self),
            old(self).has_derivation(d) && old(self).binding_suspends_nothing(d) ==> final(self).bound_from(
                old(self),
                d,
            ),
            final(self).same_context(old(self)),
            final(self).derivation_table().dom() == old(self).derivation_table().dom(),
            final(self).observable_table().dom() == old(self).observable_table().dom(),
            final(self).dependencies_total() <= old(self).binding_measure(d),
            final(self).marks_kept(old(self)),
            old(self).has_derivation(d) ==> forall|o: ObservableId|
                #[trigger] dedup(old(self).derivation(d).new_observing@).contains(o) && final(self).has_observable(o)
                    ==> final(self).observers_of(o).contains(d) && final(self).observable(o).is_being_observed,
        decreases old(self).binding_measure(d), 2u64,
    {
        if !self.derivations.contains(d) {
            return Ok(());
        }
        let ghost exact = old(self).binding_suspends_nothing(d);
        let ghost prior = old(self).derivation(d);
        let mut rec = match self.derivations.take(d) {
            Some(rec) => rec,
            None => {
                return Ok(());
            },
        };
        let mut collected: Vec<ObservableId> = Vec::new();
        std::mem::swap(&mut collected, &mut rec.new_observing);
        let new_dependencies = dedup_observables(collected);
        let mut previous = new_dependencies.clone();
        std::mem::swap(&mut previous, &mut rec.observing);
        rec.unbound_deps_count = new_dependencies.len();
        let requires_observable = rec.requires_observable;
        let ghost mid = rec;
        self.derivations.attach(d, rec);
        let ghost start = *self;
        proof {
            assert(new_dependencies@ == dedup(prior.new_observing@));
            assert(previous@ == prior.observing@);
            assert(self.derivation_table() =~= old(self).derivation_table().insert(d.id_value(), mid));
            old(self).lemma_tables_finite();
            lemma_dependency_count_insert(old(self).derivation_table(), d.id_value(), mid);
            assert(self.dependencies_total() == old(self).binding_measure(d));
            assert forall|x: DerivationId| #[trigger]
                old(self).has_derivation(x) && x != d && old(self).unpublished(x) implies self.derivation(x)
                == old(self).derivation(x) by {
                assert(x.id_value() != d.id_value());
            }
            assert(self.cascade_frame(old(self), d));
        }
        let mut i: usize = 0;
        while i < previous.len()
            invariant
                0 <= i <= previous.len(),
                old(self).has_derivation(d),
                self.same_context(old(self)),
                self.dependencies_total() <= old(self).binding_measure(d),
                self.marks_kept(old(self)),
                self.spy_log() == old(self).spy_log(),
                self.cascade_frame(old(self), d),
                old(self).unpublished(d) ==> self.derivation(d) == mid,
                old(self).unpublished(d) ==> forall|p: ObservableId| #[trigger]
                    previous@.take(i as int).contains(p) && !new_dependencies@.contains(p) && old(self).has_observable(p)
                        && old(self).observers_of(p).no_duplicates() ==> !self.observers_of(p).contains(d),
                previous@ == prior.observing@,
                new_dependencies@ == dedup(prior.new_observing@),
                prior == old(self).derivation(d),
                self.derivation_table().dom() == old(self).derivation_table().dom(),
                self.observable_table().dom() == old(self).observable_table().dom(),
                exact == old(self).binding_suspends_nothing(d),
                exact ==> {
                    &&& previous@.no_duplicates()
                    &&& self.derivation_table() == start.derivation_table()
                    &&& self.observable_table().dom() == old(self).observable_table().dom()
                    &&& forall|o: ObservableId| #[trigger] old(self).has_observable(o) ==> if previous@.take(
                        i as int,
                    ).contains(o) && !new_dependencies@.contains(o) {
                        observer_removed(old(self).observable(o), self.observable(o), d)
                    } else {
                        self.observable(o) == old(self).observable(o)
                    }
                    &&& forall|o: ObservableId|
                        #[trigger] previous@.contains(o) && !new_dependencies@.contains(o) ==> old(self).unobserving_suspends_nothing(o, d)
                    &&& self.reaction_table() == old(self).reaction_table()
                    &&& self.issued_counts() == old(self).issued_counts()
                    &&& self.same_scalars(old(self))
                    &&& self.pending() == old(self).pending()
                    &&& self.warnings() == old(self).warnings()
                    &&& self.listeners() == old(self).listeners()
                    &&& self.tracking() == old(self).tracking()
                },
            decreases previous.len() - i,
        {
            let o = previous[i];
            let ghost before_step = *self;
            proof {
                if exact {
                    lemma_no_dup_not_before(previous@, i as int);
                }
            }
            if !contains_observable(&new_dependencies, o) {
                proof {
                    assert(exact ==> self.unobserving_suspends_nothing(o, d)) by {
                        if exact && self.has_observable(o) {
                            assert(old(self).has_observable(o));
                            assert(!previous@.take(i as int).contains(o));
                            assert(self.observable(o) == old(self).observable(o));
                            assert(previous@.contains(o)) by {
                                assert(previous@[i as int] == o);
                            }
                        }
                    }
                }
                let removed = self.remove_observer(host, o, d);
                proof {
                    assert(removed is Ok);
                    lemma_cascade_frame_trans(*old(self), before_step, *self, d, d);
                    if old(self).unpublished(d) {
                        lemma_unpublished_kept(*old(self), before_step, d, d);
                        assert(before_step.has_derivation(d));
                        assert(self.derivation(d) == before_step.derivation(d));
                        assert forall|p: ObservableId| #[trigger]
                            previous@.take(i + 1).contains(p) && !new_dependencies@.contains(p) && old(self).has_observable(p)
                                && old(self).observers_of(p).no_duplicates() implies !self.observers_of(p).contains(d) by {
                            lemma_take_next_contains(previous@, i as int, p);
                            assert(before_step.has_observable(p));
                            if p == o {
                                assert(before_step.observers_of(o).no_duplicates());
                            } else {
                                assert(previous@.take(i as int).contains(p));
                            }
                        }
                    }
                }
                proof {
                    if exact {
                        assert forall|p: ObservableId| #[trigger] old(self).has_observable(p) implies if previous@.take(
                            i + 1,
                        ).contains(p) && !new_dependencies@.contains(p) {
                            observer_removed(old(self).observable(p), self.observable(p), d)
                        } else {
                            self.observable(p) == old(self).observable(p)
                        } by {
                            lemma_take_next_contains(previous@, i as int, p);
                        }
                    }
                }
            } else {
                proof {
                    if old(self).unpublished(d) {
                        assert forall|p: ObservableId| #[trigger]
                            previous@.take(i + 1).contains(p) && !new_dependencies@.contains(p) && old(self).has_observable(p)
                                && old(self).observers_of(p).no_duplicates() implies !self.observers_of(p).contains(d) by {
                            lemma_take_next_contains(previous@, i as int, p);
                        }
                    }
                    if exact {
                        assert forall|p: ObservableId| #[trigger] old(self).has_observable(p) implies if previous@.take(
                            i + 1,
                        ).contains(p) && !new_dependencies@.contains(p) {
                            observer_removed(old(self).observable(p), self.observable(p), d)
                        } else {
                            self.observable(p) == old(self).observable(p)
                        } by {
                            lemma_take_next_contains(previous@, i as int, p);
                        }
                    }
                }
            }
            i = i + 1;
        }
        let ghost after_removal = *self;
        proof {
            assert(previous@.take(previous.len() as int) =~= previous@);
        }
        let mut j: usize = 0;
        while j < new_dependencies.len()
            invariant
                0 <= j <= new_dependencies.len(),
                old(self).has_derivation(d),
                new_dependencies@ == dedup(prior.new_observing@),
                prior == old(self).derivation(d),
                forall|k: int|
                    0 <= k < j && self.has_observable(#[trigger] new_dependencies@[k]) ==> self.observers_of(
                        new_dependencies@[k],
                    ).contains(d) && self.observable(new_dependencies@[k]).is_being_observed,
                self.same_context(old(self)),
                self.dependencies_total() <= old(self).binding_measure(d),
                self.marks_kept(old(self)),
                self.spy_log() == old(self).spy_log(),
                self.cascade_frame(old(self), d),
                old(self).unpublished(d) ==> self.derivation(d) == mid,
                old(self).unpublished(d) ==> forall|p: ObservableId| #[trigger]
                    previous@.contains(p) && !new_dependencies@.contains(p) && old(self).has_observable(p)
                        && old(self).observers_of(p).no_duplicates() ==> !self.observers_of(p).contains(d),
                previous@ == prior.observing@,
                self.derivation_table().dom() == old(self).derivation_table().dom(),
                self.observable_table().dom() == old(self).observable_table().dom(),
                exact == old(self).binding_suspends_nothing(d),
                exact ==> {
                    &&& new_dependencies@.no_duplicates()
                    &&& self.derivation_table() == start.derivation_table()
                    &&& self.observable_table().dom() == old(self).observable_table().dom()
                    &&& forall|o: ObservableId| #[trigger] old(self).has_observable(o) ==> if new_dependencies@.take(
                        j as int,
                    ).contains(o) {
                        observer_attached(old(self).observable(o), self.observable(o), d)
                    } else if previous@.contains(o) && !new_dependencies@.contains(o) {
                        observer_removed(old(self).observable(o), self.observable(o), d)
                    } else {
                        self.observable(o) == old(self).observable(o)
                    }
                    &&& self.reaction_table() == old(self).reaction_table()
                    &&& self.issued_counts() == old(self).issued_counts()
                    &&& self.same_scalars(old(self))
                    &&& self.pending() == old(self).pending()
                    &&& self.warnings() == old(self).warnings()
                    &&& self.listeners() == old(self).listeners()
                    &&& self.tracking() == old(self).tracking()
                },
            decreases new_dependencies.len() - j,
        {
            let o = new_dependencies[j];
            proof {
                if exact {
                    lemma_no_dup_not_before(new_dependencies@, j as int);
                    assert(new_dependencies@.contains(o)) by {
                        assert(new_dependencies@[j as int] == o);
                    }
                }
            }
            let ghost before_attach = *self;
            self.attach_observer(o, d);
            proof {
                assert forall|p: ObservableId| #[trigger] before_attach.has_observable(p) implies self.observable(p).kind
                    == before_attach.observable(p).kind by {
                    if p.id_value() == o.id_value() {
                        assert(p == o);
                    }
                }
                assert forall|p: ObservableId, x: DerivationId|
                    before_attach.has_observable(p) && x != d && before_attach.unpublished(x) implies #[trigger] self.observers_of(
                    p,
                ).contains(x) == before_attach.observers_of(p).contains(x) by {
                    if p.id_value() == o.id_value() {
                        assert(p == o);
                        crate::observable::lemma_attach_others(before_attach.observers_of(o), d, x);
                    }
                }
                assert forall|p: ObservableId| #[trigger]
                    before_attach.has_observable(p) && before_attach.observers_of(p).no_duplicates() implies self.observers_of(
                    p,
                ).no_duplicates() by {
                    if p.id_value() == o.id_value() {
                        assert(p == o);
                        crate::observable::lemma_attach_others(before_attach.observers_of(o), d, d);
                    }
                }
                assert(self.observable_table().dom() =~= before_attach.observable_table().dom());
                assert(self.cascade_frame(&before_attach, d));
                lemma_cascade_frame_trans(*old(self), before_attach, *self, d, d);
            }
            proof {
                assert forall|k: int|
                    0 <= k < j + 1 && self.has_observable(#[trigger] new_dependencies@[k]) implies self.observers_of(
                    new_dependencies@[k],
                ).contains(d) && self.observable(new_dependencies@[k]).is_being_observed by {
                    let p = new_dependencies@[k];
                    if p.id_value() == o.id_value() {
                        assert(p == o);
                        let before_rec = before_attach.observable(o);
                        if !before_rec.observers@.contains(d) {
                            assert(self.observers_of(o)[before_rec.observers@.len() as int] == d);
                        }
                    } else {
                        assert(before_attach.has_observable(p));
                        assert(self.observable(p) == before_attach.observable(p));
                    }
                }
            }
            proof {
                if exact {
                    assert forall|p: ObservableId| #[trigger] old(self).has_observable(p) implies if new_dependencies@.take(
                        j + 1,
                    ).contains(p) {
                        observer_attached(old(self).observable(p), self.observable(p), d)
                    } else if previous@.contains(p) && !new_dependencies@.contains(p) {
                        observer_removed(old(self).observable(p), self.observable(p), d)
                    } else {
                        self.observable(p) == old(self).observable(p)
                    } by {
                        lemma_take_next_contains(new_dependencies@, j as int, p);
                    }
                }
            }
            j = j + 1;
        }
        proof {
            assert(new_dependencies@.take(new_dependencies.len() as int) =~= new_dependencies@);
        }
        let ghost attached = *self;
        if let Some(mut rec) = self.derivations.take(d) {
            rec.new_observing = previous;
            if requires_observable && new_dependencies.len() == 0 {
                rec.state = DerivationState::NotTracking;
            }
            self.derivations.attach(d, rec);
            proof {
                assert(self.derivation_table() =~= attached.derivation_table().insert(d.id_value(), self.derivation(d)));
                attached.lemma_tables_finite();
                lemma_dependency_count_insert(attached.derivation_table(), d.id_value(), self.derivation(d));
                lemma_dependency_count_remove(attached.derivation_table(), d.id_value());
                if exact {
                    assert(self.derivation_table() =~= old(self).derivation_table().insert(
                        d.id_value(),
                        self.derivation(d),
                    ));
                }
            }
        }
        Ok(())
    }
}

} // verus!

verus! {

/// After binding, the derivation's dependencies are listed once each; it is
/// among the observers of every registered dependency; and it is no longer
/// among the observers of a dependency it dropped, when those listed it once.
pub proof fn law_binding_mirrors_dependencies(a: MobxRuntime, b: MobxRuntime, d: DerivationId)
    requires
        b.graph_bound_from(&a, d),
    ensures
        b.derivation(d).observing@.no_duplicates(),
        forall|o: ObservableId|
            #[trigger] b.derivation(d).observing@.contains(o) && a.has_observable(o) ==> b.observers_of(o).contains(
                d,
            ),
        forall|o: ObservableId|
            #[trigger] a.derivation(d).observing@.contains(o) && !b.derivation(d).observing@.contains(o)
                && a.has_observable(o) && a.observers_of(o).no_duplicates() ==> !b.observers_of(o).contains(d),
{
    let new = dedup(a.derivation(d).new_observing@);
    let collected = a.derivation(d).new_observing@;
    if collected.len() > 0 {
        lemma_dedup_contains(collected, collected[0]);
    }
    assert forall|o: ObservableId|
        #[trigger] b.derivation(d).observing@.contains(o) && a.has_observable(o) implies b.observers_of(o).contains(
            d,
        ) by {
        lemma_dedup_contains(a.derivation(d).new_observing@, o);
        assert(new.contains(o));
        let before = a.observers_of(o);
        if !before.contains(d) {
            assert(b.observers_of(o) == before.push(d));
            assert(b.observers_of(o)[before.len() as int] == d);
        }
    }
    assert forall|o: ObservableId|
        #[trigger] a.derivation(d).observing@.contains(o) && !b.derivation(d).observing@.contains(o)
            && a.has_observable(o) && a.observers_of(o).no_duplicates() implies !b.observers_of(o).contains(d) by {
        assert(!new.contains(o));
        lemma_swap_remove_first_unique(a.observers_of(o), d);
    }
}

/// A tracked run of `d` begun on `before` ran its function from `start` to
/// `end`, and ending it left `after`: the run began as `begin_tracking`
/// begins one, and ended as `end_tracking` ends one, with the tracking
/// derivation and read permission of `before` restored and the collected
/// dependencies bound.
pub open spec fn tracked_run_closed(
    before: MobxRuntime,
    start: MobxRuntime,
    end: MobxRuntime,
    after: MobxRuntime,
    d: DerivationId,
) -> bool {
    &&& start.tracking_begun(&before, d)
    &&& after.tracking() == before.tracking()
    &&& after.allows_reads() == before.allows_reads()
    &&& after.run_id_spec() == end.run_id_spec()
    &&& after.batch_spec() == end.batch_spec()
    &&& after.allows_changes() == end.allows_changes()
    &&& after.policy() == end.policy()
    &&& after.running() == end.running()
    &&& after.reaction_table() == end.reaction_table()
    &&& after.issued_counts() == end.issued_counts()
    &&& after.pending() == end.pending()
    &&& after.warnings() == end.warnings()
    &&& after.listeners() == end.listeners()
    &&& after.next_listener() == end.next_listener()
    &&& after.derivation_table().dom() == end.derivation_table().dom()
    &&& after.observable_table().dom() == end.observable_table().dom()
    &&& end.has_derivation(d) && end.binding_suspends_nothing(d) ==> after.graph_bound_from(&end, d)
}

/// Runs `execute` as a tracked run of the derivation: what it reads becomes
/// the derivation's dependencies. Returns what `execute` returned; fails
/// only when the run ids are used up.
pub fn track_derived_function<R, H: Host, F: FnOnce(&mut MobxRuntime) -> R>(
    rt: &mut MobxRuntime,
    host: &H,
    d: DerivationId,
    execute: F,
) -> (r: Result<R, Fault>)
    requires
        forall|x: &mut MobxRuntime| #[trigger] execute.requires((x,)),
    ensures
        old(rt).run_id_spec() == u64::MAX ==> r == Err::<R, Fault>(Fault::CounterOverflow) && *final(rt) == *old(rt),
        old(rt).run_id_spec() < u64::MAX ==> exists|x: &mut MobxRuntime, v: R|
            #[trigger] execute.ensures((x,), v) && r == Ok::<R, Fault>(v) && tracked_run_closed(
                *old(rt),
                *x,
                *final(x),
                *final(rt),
                d,
            ),
{
    let frame = rt.begin_tracking(d)?;
    let result = execute(rt);
    let ended = rt.end_tracking(host, d, frame);
    proof {
        assert(ended is Ok);
    }
    Ok(result)
}

} // verus!

verus! {

/// Observables keep their kinds, so whether an observable publishes a
/// derivation does not change.
pub proof fn lemma_unpublished_kept(a: MobxRuntime, b: MobxRuntime, e: DerivationId, x: DerivationId)
    requires
        b.cascade_frame(&a, e),
    ensures
        b.unpublished(x) == a.unpublished(x),
{
    if a.unpublished(x) {
        assert forall|o: ObservableId| #[trigger]
            b.has_observable(o) && b.observable(o).kind is Computed implies b.observable(o).kind->Computed_0 != x by {
            assert(a.has_observable(o));
        }
    }
    if b.unpublished(x) {
        assert forall|o: ObservableId| #[trigger]
            a.has_observable(o) && a.observable(o).kind is Computed implies a.observable(o).kind->Computed_0 != x by {
            assert(b.has_observable(o));
        }
    }
}

/// Frames compose: a step that leaves everything but `e` in place, then
/// one that leaves everything but a published `p` (or `e` itself) in place.
pub proof fn lemma_cascade_frame_trans(a: MobxRuntime, b: MobxRuntime, c: MobxRuntime, e: DerivationId, p: DerivationId)
    requires
        b.cascade_frame(&a, e),
        c.cascade_frame(&b, p),
        p == e || !a.unpublished(p),
    ensures
        c.cascade_frame(&a, e),
{
    assert forall|x: DerivationId| a.unpublished(x) implies b.unpublished(x) by {
        lemma_unpublished_kept(a, b, e, x);
    }
    assert forall|x: DerivationId| #[trigger]
        a.has_derivation(x) && x != e && a.unpublished(x) implies c.derivation(x) == a.derivation(x) by {
        lemma_unpublished_kept(a, b, e, x);
        lemma_unpublished_kept(a, b, e, p);
        assert(x != p);
        assert(b.has_derivation(x));
        assert(b.derivation(x) == a.derivation(x));
    }
    assert forall|o: ObservableId, x: DerivationId|
        a.has_observable(o) && x != e && a.unpublished(x) implies #[trigger] c.observers_of(o).contains(x)
        == a.observers_of(o).contains(x) by {
        lemma_unpublished_kept(a, b, e, x);
        lemma_unpublished_kept(a, b, e, p);
        assert(x != p);
        assert(b.has_observable(o));
        assert(b.observers_of(o).contains(x) == a.observers_of(o).contains(x));
    }
    assert forall|o: ObservableId| #[trigger]
        a.has_observable(o) && a.observers_of(o).no_duplicates() implies c.observers_of(o).no_duplicates() by {
        assert(b.has_observable(o));
    }
    assert forall|o: ObservableId| #[trigger] a.has_observable(o) implies c.observable(o).kind == a.observable(o).kind by {
        assert(b.has_observable(o));
    }
}

/// A frame holds of a state and itself.
pub proof fn lemma_cascade_frame_refl(a: MobxRuntime, e: DerivationId)
    ensures
        a.cascade_frame(&a, e),
{
}

} // verus!


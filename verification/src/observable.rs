//! Observables: atoms, and the observable side of computed values.
use crate::derivation::{DerivationKind, DerivationRecord, DerivationState};
use crate::reaction::ReactionRecord;
use crate::host::Host;
use crate::ids::{DerivationId, ObservableId, RawId, ReactionId};
use crate::runtime::{change_allowed, marked_state, policy_label, strict_mode_message, Fault, MobxRuntime, Step};
use crate::spy::{emit_spy_event, SpyEvent, SpyKind};
use vstd::prelude::*;

verus! {

/// What an observable is: a plain atom, or the observable side of a computed
/// value together with its derivation.
#[derive(Clone, Copy, Debug, PartialEq, Eq, Structural)]
pub enum ObservableKind {
    Atom,
    Computed(DerivationId),
}

/// Bookkeeping the runtime keeps for one observable.
pub struct ObservableRecord {
    pub name: String,
    pub kind: ObservableKind,
    pub observers: Vec<DerivationId>,
    pub diff_value: u8,
    pub is_being_observed: bool,
    pub is_pending_unobservation: bool,
    pub lowest_observer_state: DerivationState,
}

impl ObservableRecord {
    /// A record for an observable nobody observes yet.
    pub(crate) fn new(name: String, kind: ObservableKind) -> (r: Self)
        ensures
            r.name@ == name@,
            r.kind == kind,
            r.observers@ == Seq::<DerivationId>::empty(),
            r.diff_value == 0,
            !r.is_being_observed,
            !r.is_pending_unobservation,
            r.lowest_observer_state == DerivationState::UpToDate,
    {
        ObservableRecord {
            name,
            kind,
            observers: Vec::new(),
            diff_value: 0,
            is_being_observed: false,
            is_pending_unobservation: false,
            lowest_observer_state: DerivationState::UpToDate,
        }
    }
}

} // verus!

verus! {

/// Whether `v` holds `d`.
pub fn contains_derivation(v: &Vec<DerivationId>, d: DerivationId) -> (r: bool)
    ensures
        r == v@.contains(d),
{
    let mut i: usize = 0;
    while i < v.len()
        invariant
            0 <= i <= v.len(),
            forall|j: int| 0 <= j < i ==> v@[j] != d,
        decreases v.len() - i,
    {
        if v[i] == d {
            return true;
        }
        i = i + 1;
    }
    false
}

/// The index of the first `d` in `v`.
pub fn position_of_derivation(v: &Vec<DerivationId>, d: DerivationId) -> (r: Option<usize>)
    ensures
        r is None <==> !v@.contains(d),
        r matches Some(i) ==> i < v.len() && v@[i as int] == d && forall|j: int| 0 <= j < i ==> v@[j] != d,
{
    let mut i: usize = 0;
    while i < v.len()
        invariant
            0 <= i <= v.len(),
            forall|j: int| 0 <= j < i ==> v@[j] != d,
        decreases v.len() - i,
    {
        if v[i] == d {
            return Some(i);
        }
        i = i + 1;
    }
    None
}

} // verus!

verus! {

impl MobxRuntime {
    /// The record of an observable.
    pub open(crate) spec fn observable(&self, o: ObservableId) -> ObservableRecord {
        self.observable_table()[o.id_value()]
    }

    /// Whether the runtime has a record for the observable.
    pub open(crate) spec fn has_observable(&self, o: ObservableId) -> bool {
        self.observable_table().contains_key(o.id_value())
    }

    /// The derivations observing an observable.
    pub open(crate) spec fn observers_of(&self, o: ObservableId) -> Seq<DerivationId> {
        self.observable(o).observers@
    }

    /// The derivation table after the tracking derivation (if any) collected
    /// `o` as a dependency.
    pub open(crate) spec fn collected_from(&self, before: &Self, o: ObservableId) -> bool {
        match before.tracking() {
            Some(t) if before.has_derivation(t) => {
                let after = self.derivation(t);
                let prior = before.derivation(t);
                &&& self.derivation_table() == before.derivation_table().insert(t.id_value(), after)
                &&& after.new_observing@ == prior.new_observing@.push(o)
                &&& after.unbound_deps_count == after.new_observing@.len()
                &&& after.observing == prior.observing
                &&& after.state == prior.state
                &&& after.kind == prior.kind
                &&& after.name == prior.name
                &&& after.run_id == prior.run_id
                &&& after.requires_observable == prior.requires_observable
                &&& after.keep_alive == prior.keep_alive
                &&& after.is_computing == prior.is_computing
            },
            _ => self.derivation_table() == before.derivation_table(),
        }
    }

    /// Creates an atom: the minimal observable, observed by nobody yet.
    pub fn create_atom(&mut self, name: String) -> (r: Result<ObservableId, Fault>)
        ensures
            old(self).issued_counts().0 == u64::MAX ==> r == Err::<ObservableId, Fault>(Fault::CounterOverflow)
                && *final(self) == *old(self),
            old(self).issued_counts().0 < u64::MAX ==> (r matches Ok(id) && {
                &&& id.id_value() == old(self).issued_counts().0 + 1
                &&& final(self).observable_table() == old(self).observable_table().insert(
                    id.id_value(),
                    final(self).observable(id),
                )
                &&& final(self).observable(id).name@ == name@
                &&& final(self).observable(id).kind == ObservableKind::Atom
                &&& final(self).observers_of(id) == Seq::<DerivationId>::empty()
                &&& !final(self).observable(id).is_being_observed
                &&& final(self).issued_counts() == (
                    id.id_value(),
                    old(self).issued_counts().1,
                    old(self).issued_counts().2,
                )
            }),
            final(self).derivation_table() == old(self).derivation_table(),
            final(self).reaction_table() == old(self).reaction_table(),
            final(self).same_scalars(old(self)),
            final(self).pending() == old(self).pending(),
            final(self).warnings() == old(self).warnings(),
            final(self).listeners() == old(self).listeners(),
            final(self).tracking() == old(self).tracking(),
    {
        if self.observables.issued() == u64::MAX {
            return Err(Fault::CounterOverflow);
        }
        let id: ObservableId = self.observables.reserve();
        self.observables.attach(id, ObservableRecord::new(name, ObservableKind::Atom));
        Ok(id)
    }

    /// Registers the derivation as an observer of the observable, once, and
    /// marks the observable as observed.
    pub fn attach_observer(&mut self, o: ObservableId, d: DerivationId)
        ensures
            final(self).spy_log() == old(self).spy_log(),
            !old(self).has_observable(o) ==> final(self).observable_table() == old(self).observable_table(),
            old(self).has_observable(o) ==> {
                &&& final(self).observable_table() == old(self).observable_table().insert(
                    o.id_value(),
                    final(self).observable(o),
                )
                &&& observer_attached(old(self).observable(o), final(self).observable(o), d)
            },
            final(self).derivation_table() == old(self).derivation_table(),
            final(self).reaction_table() == old(self).reaction_table(),
            final(self).issued_counts() == old(self).issued_counts(),
            final(self).same_scalars(old(self)),
            final(self).pending() == old(self).pending(),
            final(self).warnings() == old(self).warnings(),
            final(self).listeners() == old(self).listeners(),
            final(self).tracking() == old(self).tracking(),
            final(self).next_listener() == old(self).next_listener(),
    {
        if let Some(mut rec) = self.observables.take(o) {
            if !contains_derivation(&rec.observers, d) {
                rec.observers.push(d);
            }
            rec.is_being_observed = true;
            rec.is_pending_unobservation = false;
            self.observables.attach(o, rec);
            proof {
                assert(self.observable_table() =~= old(self).observable_table().insert(
                    o.id_value(),
                    self.observable(o),
                ));
            }
        }
    }

    /// Appends the observable to the dependencies that the tracking
    /// derivation, if any, is collecting.
    pub fn push_tracked_dependency(&mut self, o: ObservableId)
        ensures
            final(self).observable_table() == old(self).observable_table(),
            final(self).reaction_table() == old(self).reaction_table(),
            final(self).issued_counts() == old(self).issued_counts(),
            final(self).same_scalars(old(self)),
            final(self).pending() == old(self).pending(),
            final(self).warnings() == old(self).warnings(),
            final(self).listeners() == old(self).listeners(),
            final(self).tracking() == old(self).tracking(),
            final(self).collected_from(old(self), o),
            final(self).spy_log() == old(self).spy_log(),
            final(self).trace() == old(self).trace().push(Step::Collected(old(self).tracking(), o)),
    {
        self.trace = Ghost(self.trace@.push(Step::Collected(self.tracking_derivation, o)));
        if let Some(t) = self.tracking_derivation {
            if !self.derivations.contains(t) {
                return;
            }
            if let Some(mut rec) = self.derivations.take(t) {
                rec.new_observing.push(o);
                rec.unbound_deps_count = rec.new_observing.len();
                self.derivations.attach(t, rec);
                proof {
                    assert(self.derivation_table() =~= old(self).derivation_table().insert(
                        t.id_value(),
                        self.derivation(t),
                    ));
                }
            }
        }
    }
}

} // verus!

verus! {

/// `s` without the first occurrence of `d`, removed the way `Vec::swap_remove`
/// removes it (the last element takes its place); `s` when `d` does not occur.
pub open spec fn swap_remove_first(s: Seq<DerivationId>, d: DerivationId) -> Seq<DerivationId> {
    if s.contains(d) {
        let i = choose|i: int| 0 <= i < s.len() && s[i] == d && forall|j: int| 0 <= j < i ==> s[j] != d;
        s.update(i, s.last()).drop_last()
    } else {
        s
    }
}

/// The record after `d` was removed from its observers: the observers list
/// loses `d`; a record left without observers is pending unobservation and
/// unobserved; everything else is kept.
pub open spec fn observer_removed(before: ObservableRecord, after: ObservableRecord, d: DerivationId) -> bool {
    &&& after.observers@ == swap_remove_first(before.observers@, d)
    &&& after.name == before.name
    &&& after.kind == before.kind
    &&& after.diff_value == before.diff_value
    &&& after.lowest_observer_state == before.lowest_observer_state
    &&& if after.observers@.len() == 0 {
        after.is_pending_unobservation && !after.is_being_observed
    } else {
        after.is_pending_unobservation == before.is_pending_unobservation
            && after.is_being_observed == before.is_being_observed
    }
}

/// The record after `d` was attached as an observer: `d` is among the
/// observers once, and the observable is observed.
pub open spec fn observer_attached(before: ObservableRecord, after: ObservableRecord, d: DerivationId) -> bool {
    &&& after.observers@ == if before.observers@.contains(d) {
        before.observers@
    } else {
        before.observers@.push(d)
    }
    &&& after.is_being_observed
    &&& !after.is_pending_unobservation
    &&& after.name == before.name
    &&& after.kind == before.kind
    &&& after.diff_value == before.diff_value
    &&& after.lowest_observer_state == before.lowest_observer_state
}

impl MobxRuntime {

    /// Removes the derivation from the observable's observers. An atom left
    /// without observers is pending unobservation and unobserved; a computed
    /// value left without observers is suspended.
    pub fn remove_observer<H: Host>(&mut self, host: &H, o: ObservableId, d: DerivationId) -> (r:
        Result<(), Fault>)
        ensures
            final(self).cascade_frame(old(self), d),
            forall|x: DerivationId| #[trigger]
                old(self).has_derivation(x) && old(self).unpublished(x) ==> final(self).derivation(x) == old(
                    self,
                ).derivation(x),
            old(self).unpublished(d) ==> forall|p: ObservableId| #[trigger]
                old(self).has_observable(p) && p != o ==> final(self).observers_of(p).contains(d) == old(
                    self,
                ).observers_of(p).contains(d),
            old(self).unpublished(d) && old(self).has_observable(o) && old(self).observers_of(o).no_duplicates()
                ==> !final(self).observers_of(o).contains(d),
            final(self).spy_log() == old(self).spy_log(),
            r is Ok,
            final(self).dependencies_total() <= old(self).dependencies_total(),
            final(self).marks_kept(old(self)),
            !old(self).has_observable(o) ==> r is Ok && *final(self) == *old(self),
            old(self).has_observable(o) && (old(self).observable(o).kind == ObservableKind::Atom
                || swap_remove_first(old(self).observers_of(o), d).len() > 0) ==> {
                &&& r is Ok
                &&& final(self).has_observable(o)
                &&& observer_removed(old(self).observable(o), final(self).observable(o), d)
                &&& final(self).observable_table() == old(self).observable_table().insert(
                    o.id_value(),
                    final(self).observable(o),
                )
                &&& final(self).derivation_table() == old(self).derivation_table()
                &&& final(self).reaction_table() == old(self).reaction_table()
                &&& final(self).issued_counts() == old(self).issued_counts()
                &&& final(self).same_scalars(old(self))
                &&& final(self).pending() == old(self).pending()
                &&& final(self).warnings() == old(self).warnings()
                &&& final(self).listeners() == old(self).listeners()
                &&& final(self).tracking() == old(self).tracking()
            },
            old(self).removal_suspends(o, d) ==> {
                let c = old(self).observable(o).kind->Computed_0;
                let b = old(self).derivation(c);
                &&& r is Ok
                &&& final(self).has_observable(o)
                &&& observer_removed(old(self).observable(o), final(self).observable(o), d)
                &&& final(self).same_context(old(self))
                &&& b.keep_alive ==> final(self).derivation_table() == old(self).derivation_table()
                    && final(self).observable_table() == old(self).observable_table().insert(
                    o.id_value(),
                    final(self).observable(o),
                )
                &&& !b.keep_alive ==> {
                    let a = final(self).derivation(c);
                    &&& final(self).derivation_table() == old(self).derivation_table().insert(c.id_value(), a)
                    &&& a.observing@ == Seq::<ObservableId>::empty()
                    &&& a.new_observing@ == b.observing@
                    &&& a.state == DerivationState::NotTracking
                    &&& a.unbound_deps_count == 0
                    &&& a.name == b.name
                    &&& a.kind == b.kind
                    &&& a.run_id == b.run_id
                    &&& a.requires_observable == b.requires_observable
                    &&& a.keep_alive == b.keep_alive
                    &&& a.is_computing == b.is_computing
                    &&& forall|p: ObservableId| #[trigger] old(self).has_observable(p) && p != o ==> if b.observing@.contains(
                        p,
                    ) {
                        observer_removed(old(self).observable(p), final(self).observable(p), c)
                    } else {
                        final(self).observable(p) == old(self).observable(p)
                    }
                }
            },
            final(self).same_context(old(self)),
            final(self).derivation_table().dom() == old(self).derivation_table().dom(),
            final(self).observable_table().dom() == old(self).observable_table().dom(),
        decreases old(self).dependencies_total(), 1u64,
    {
        if !self.observables.contains(o) {
            return Ok(());
        }
        let mut rec = match self.observables.take(o) {
            Some(rec) => rec,
            None => {
                return Ok(());
            },
        };
        let ghost before = rec;
        if let Some(index) = position_of_derivation(&rec.observers, d) {
            rec.observers.swap_remove(index);
            proof {
                let i = choose|i: int|
                    0 <= i < before.observers@.len() && before.observers@[i] == d && forall|j: int|
                        0 <= j < i ==> before.observers@[j] != d;
                assert(i == index as int) by {
                    if i < index as int {
                        assert(before.observers@[i] != d);
                    }
                    if index < i {
                        assert(before.observers@[index as int] != d);
                    }
                }
            }
        }
        let now_empty = rec.observers.len() == 0;
        let kind = rec.kind;
        if now_empty {
            rec.is_pending_unobservation = true;
            rec.is_being_observed = false;
        }
        self.observables.attach(o, rec);
        proof {
            assert(self.observable_table() =~= old(self).observable_table().insert(o.id_value(), self.observable(o)));
        }
        let ghost updated = *self;
        proof {
            let before_list = old(self).observers_of(o);
            assert(updated.observers_of(o) == swap_remove_first(before_list, d));
            assert forall|p: ObservableId| #[trigger] old(self).has_observable(p) implies updated.observable(p).kind
                == old(self).observable(p).kind by {
                if p.id_value() == o.id_value() {
                    assert(p == o);
                }
            }
            assert forall|p: ObservableId, x: DerivationId|
                old(self).has_observable(p) && x != d && old(self).unpublished(x) implies #[trigger] updated.observers_of(
                p,
            ).contains(x) == old(self).observers_of(p).contains(x) by {
                if p.id_value() == o.id_value() {
                    assert(p == o);
                    lemma_swap_remove_first_others(before_list, d, x);
                }
            }
            assert forall|p: ObservableId| #[trigger]
                old(self).has_observable(p) && old(self).observers_of(p).no_duplicates() implies updated.observers_of(
                p,
            ).no_duplicates() by {
                if p.id_value() == o.id_value() {
                    assert(p == o);
                    lemma_swap_remove_first_unique(before_list, d);
                }
            }
            assert(updated.cascade_frame(old(self), d));
            if before_list.no_duplicates() {
                lemma_swap_remove_first_unique(before_list, d);
            }
            assert forall|p: ObservableId| #[trigger] old(self).has_observable(p) && p != o implies updated.observable(p)
                == old(self).observable(p) by {
                assert(p.id_value() != o.id_value());
            }
        }
        if now_empty {
            match kind {
                ObservableKind::Atom => {
                    host.observation_changed(o, false);
                },
                ObservableKind::Computed(c) => {
                    let ghost mid = *self;
                    proof {
                        if old(self).removal_suspends(o, d) {
                            let b = old(self).derivation(c);
                            assert(mid.derivation(c) == b);
                            assert forall|p: ObservableId| #[trigger] b.observing@.contains(p) implies mid.unobserving_suspends_nothing(
                                p,
                                c,
                            ) by {
                                assert(old(self).unobserving_suspends_nothing(p, c));
                                assert(p != o);
                                if mid.has_observable(p) {
                                    assert(p.id_value() != o.id_value());
                                    assert(mid.observable(p) == old(self).observable(p));
                                }
                            }
                            assert(mid.release_suspends_nothing(c));
                        }
                    }
                    proof {
                        assert(mid.derivation_table() == old(self).derivation_table());
                    }
                    let suspended = self.suspend_computed_nested(host, c);
                    proof {
                        assert(suspended is Ok);
                        assert(!old(self).unpublished(c)) by {
                            assert(old(self).has_observable(o) && old(self).observable(o).kind is Computed);
                        }
                        crate::derivation::lemma_cascade_frame_trans(*old(self), updated, *self, d, c);
                        assert forall|x: DerivationId| #[trigger]
                            old(self).has_derivation(x) && old(self).unpublished(x) implies self.derivation(x) == old(
                            self,
                        ).derivation(x) by {
                            crate::derivation::lemma_unpublished_kept(*old(self), updated, d, x);
                            assert(updated.has_derivation(x));
                            assert(x != c);
                        }
                        if old(self).unpublished(d) {
                            crate::derivation::lemma_unpublished_kept(*old(self), updated, d, d);
                            assert(d != c);
                            assert forall|p: ObservableId| #[trigger]
                                old(self).has_observable(p) && p != o implies self.observers_of(p).contains(d) == old(
                                self,
                            ).observers_of(p).contains(d) by {
                                assert(updated.has_observable(p));
                                assert(self.observers_of(p).contains(d) == updated.observers_of(p).contains(d));
                            }
                            assert(self.observers_of(o).contains(d) == updated.observers_of(o).contains(d));
                        }
                    }
                    proof {
                        if old(self).removal_suspends(o, d) && !old(self).derivation(c).keep_alive {
                            let b = old(self).derivation(c);
                            assert(self.derivation_table() =~= old(self).derivation_table().insert(
                                c.id_value(),
                                self.derivation(c),
                            ));
                            assert(mid.has_observable(o));
                            assert(self.observable(o) == mid.observable(o));
                            assert forall|p: ObservableId| #[trigger] old(self).has_observable(p) && p != o implies if b.observing@.contains(
                                p,
                            ) {
                                observer_removed(old(self).observable(p), self.observable(p), c)
                            } else {
                                self.observable(p) == old(self).observable(p)
                            } by {
                                assert(p.id_value() != o.id_value());
                                assert(mid.has_observable(p));
                                assert(mid.observable(p) == old(self).observable(p));
                            }
                        }
                    }
                },
            }
        }
        Ok(())
    }


    /// Reports that the observable was read: with reads allowed, the tracking
    /// derivation collects it, it becomes observed, and a computed value
    /// (re)computes when it must. Returns whether the read was allowed.
    pub fn report_observed<H: Host>(&mut self, host: &H, o: ObservableId) -> (r:
        Result<bool, Fault>)
        ensures
            old(self).allows_reads() && old(self).has_observable(o) && old(self).observable(o).kind is Computed
                && old(self).has_derivation(old(self).observable(o).kind->Computed_0) && old(self).derivation(
                old(self).observable(o).kind->Computed_0,
            ).state != DerivationState::UpToDate && old(self).derivation(old(self).observable(o).kind->Computed_0).kind
                is Computed ==> {
                let c = old(self).observable(o).kind->Computed_0;
                let prior = old(self).derivation(c);
                &&& prior.is_computing ==> (r matches Err(Fault::RecursiveComputation(name)) && name@ == prior.name@)
                &&& !prior.is_computing && old(self).run_id_spec() == u64::MAX ==> r == Err::<bool, Fault>(
                    Fault::CounterOverflow,
                )
            },
            !old(self).allows_reads() || !old(self).has_observable(o) ==> r == Ok::<bool, Fault>(false)
                && *final(self) == *old(self),
            old(self).allows_reads() && old(self).has_observable(o) && old(self).reads_without_computing(o) ==> r
                == Ok::<bool, Fault>(true) && final(self).read_from(old(self), o),
            old(self).allows_reads() && old(self).has_observable(o) ==> final(self).trace() == old(self).trace().push(
                Step::Collected(old(self).tracking(), o),
            ),
            final(self).keeps_tracking(old(self)),
            old(self).allows_reads() && old(self).has_observable(o) && old(self).observable(o).kind is Computed
                && old(self).has_derivation(old(self).observable(o).kind->Computed_0) && !old(self).derivation(
                old(self).observable(o).kind->Computed_0,
            ).is_computing && old(self).run_id_spec() < u64::MAX && r is Ok && final(self).running()
                && final(self).has_derivation(old(self).observable(o).kind->Computed_0) ==> {
                let after = final(self).derivation(old(self).observable(o).kind->Computed_0);
                &&& !after.is_computing
                &&& (after.state == DerivationState::UpToDate || after.state == DerivationState::Stale
                    || after.state == DerivationState::NotTracking)
            },
    {
        if !self.allow_state_reads {
            return Ok(false);
        }
        let (kind, observed) = match self.observables.get(o) {
            Some(rec) => (rec.kind, rec.is_being_observed),
            None => {
                return Ok(false);
            },
        };
        if self.has_spy_listeners() {
            let name = self.observable_name(o);
            let event = SpyEvent::ObservableRead { name };
            let ghost before_emit = *self;
            emit_spy_event(self, host, &event);
            proof {
                crate::runtime::lemma_one_event(before_emit, event);
            }
        }
        self.push_tracked_dependency(o);
        let ghost collected = self.trace@;
        if !observed {
            if let Some(mut rec) = self.observables.take(o) {
                rec.is_being_observed = true;
                rec.is_pending_unobservation = false;
                self.observables.attach(o, rec);
                proof {
                    assert(self.observable_table() =~= old(self).observable_table().insert(
                        o.id_value(),
                        self.observable(o),
                    ));
                }
            }
            if kind == ObservableKind::Atom {
                host.observation_changed(o, true);
            }
        }
        if let ObservableKind::Computed(c) = kind {
            let ghost before_check = *self;
            let compute = self.should_compute(c);
            if compute {
                proof {
                    if old(self).has_derivation(c) {
                        let prior = old(self).derivation(c);
                        assert(before_check.has_derivation(c));
                        assert(before_check.derivation(c).is_computing == prior.is_computing
                            && before_check.derivation(c).name == prior.name
                            && before_check.derivation(c).kind == prior.kind
                            && before_check.derivation(c).state == prior.state) by {
                            match old(self).tracking() {
                                Some(t) => {
                                    if t.id_value() == c.id_value() {
                                        assert(t == c);
                                    }
                                },
                                None => {},
                            }
                        }
                        assert(self.derivation(c).is_computing == prior.is_computing);
                        assert(self.derivation(c).name == prior.name);
                    }
                }
                if let Err(fault) = self.track_and_compute_nested(host, c, u64::MAX) {
                    self.trace = Ghost(collected);
                    return Err(fault);
                }
            }
        }
        self.trace = Ghost(collected);
        proof {
            if old(self).reads_without_computing(o) {
                assert(self.reported(old(self), old(self).listeners().len() > 0, seq![(SpyKind::ObservableRead, old(self).observable(o).name@)]));
                assert(self.collected_from(old(self), o));
                assert(self.same_scalars(old(self)));
                assert(self.observable_table() == old(self).observable_table().insert(o.id_value(), self.observable(o)));
                assert(self.observable(o).is_being_observed);
                assert(self.observable(o).observers == old(self).observable(o).observers);
                assert(self.reaction_table() == old(self).reaction_table());
                assert(self.issued_counts() == old(self).issued_counts());
                assert(self.pending() == old(self).pending());
                assert(self.warnings() == old(self).warnings());
                assert(self.listeners() == old(self).listeners());
                assert(self.tracking() == old(self).tracking());
                assert(self.read_from(old(self), o));
            }
        }
        Ok(true)
    }

    /// The derivations observing the observable, in the order they were
    /// attached (empty when it has no record).
    pub fn observers(&self, o: ObservableId) -> (r: Vec<DerivationId>)
        ensures
            self.has_observable(o) ==> r@ == self.observers_of(o),
            !self.has_observable(o) ==> r@ == Seq::<DerivationId>::empty(),
    {
        match self.observables.get(o) {
            Some(rec) => rec.observers.clone(),
            None => Vec::new(),
        }
    }

    /// The change counter of the observable, bumped (wrapping) by each
    /// reported change; `None` when it has no record.
    pub fn observable_diff_value(&self, o: ObservableId) -> (r: Option<u8>)
        ensures
            r == (if self.has_observable(o) {
                Some(self.observable(o).diff_value)
            } else {
                None::<u8>
            }),
    {
        match self.observables.get(o) {
            Some(rec) => Some(rec.diff_value),
            None => None,
        }
    }

    /// The lowest state its observers were left in by the last change;
    /// `None` when it has no record.
    pub fn lowest_observer_state(&self, o: ObservableId) -> (r: Option<DerivationState>)
        ensures
            r == (if self.has_observable(o) {
                Some(self.observable(o).lowest_observer_state)
            } else {
                None::<DerivationState>
            }),
    {
        match self.observables.get(o) {
            Some(rec) => Some(rec.lowest_observer_state),
            None => None,
        }
    }

    /// Whether the observable is observed (`false` when it has no record).
    pub fn is_being_observed(&self, o: ObservableId) -> (r: bool)
        ensures
            r == (self.has_observable(o) && self.observable(o).is_being_observed),
    {
        match self.observables.get(o) {
            Some(rec) => rec.is_being_observed,
            None => false,
        }
    }

    /// Whether the observable lost its last observer and awaits
    /// unobservation (`false` when it has no record).
    pub fn is_pending_unobservation(&self, o: ObservableId) -> (r: bool)
        ensures
            r == (self.has_observable(o) && self.observable(o).is_pending_unobservation),
    {
        match self.observables.get(o) {
            Some(rec) => rec.is_pending_unobservation,
            None => false,
        }
    }

    /// The name of the observable (empty when it has no record).
    pub fn observable_name(&self, o: ObservableId) -> (r: String)
        ensures
            self.has_observable(o) ==> r@ == self.observable(o).name@,
            !self.has_observable(o) ==> r@ == Seq::<char>::empty(),
    {
        match self.observables.get(o) {
            Some(rec) => rec.name.clone(),
            None => String::new(),
        }
    }


    /// Reports that the observable changed. For an atom: a change outside an
    /// action under strict mode records a warning; inside a batch the atom's
    /// observers that were up to date (or possibly stale) become stale, and
    /// stale reactions are scheduled. For a computed value: the change is
    /// propagated to its observers.
    pub fn report_changed<H: Host>(&mut self, host: &H, o: ObservableId) -> (r:
        Result<(), Fault>)
        ensures
            !old(self).has_observable(o) ==> r is Ok && *final(self) == *old(self),
            old(self).marks_inline() && old(self).has_observable(o) && old(self).observable(o).kind
                == ObservableKind::Atom ==> final(self).changed_atom_from(old(self), o, r),
            old(self).has_observable(o) && old(self).observable(o).kind == ObservableKind::Atom
                && old(self).observers_of(o).len() == 0 ==> r is Ok && final(self).changed_atom_from(old(self), o, r)
                && final(self).only_atom_changed(old(self), o),
            old(self).marks_inline() && old(self).has_observable(o) && old(self).observable(o).kind
                != ObservableKind::Atom ==> {
                &&& final(self).staled_from(old(self))
                &&& final(self).warnings() == old(self).warnings()
                &&& final(self).batch_spec() == old(self).batch_spec()
                &&& r is Ok || r == Err::<(), Fault>(Fault::DepthExhausted)
                &&& r is Ok ==> forall|d: DerivationId| #[trigger] old(self).observers_of(o).contains(d) ==> final(self).marked_stale(old(self), d)
            },
            final(self).keeps_tracking(old(self)),
            !old(self).running() && r is Ok ==> !final(self).running(),
            old(self).has_observable(o) && old(self).observable(o).kind == ObservableKind::Atom ==> final(self).traced_atom_change(old(self), o, r),
            old(self).has_observable(o) && old(self).observable(o).kind != ObservableKind::Atom ==> final(self).marked_after(old(self).trace(), old(self).observers_of(o), r is Ok),
    {
        let kind = match self.observables.get(o) {
            Some(rec) => rec.kind,
            None => {
                return Ok(());
            },
        };
        if let ObservableKind::Computed(_) = kind {
            return self.propagate_change_nested(host, o, u64::MAX);
        }
        let ghost prior = old(self).observable(o);
        self.begin_atom_change(host, o);
        let ghost touched = *self;
        proof {
            assert(touched.observers_of(o) == old(self).observers_of(o));
            if old(self).marks_inline() && !old(self).running() {
                assert forall|d: DerivationId|
                    #[trigger] touched.has_derivation(d) && touched.derivation(d).state.is_fresh()
                        && touched.derivation(d).kind is Reaction implies !(touched.has_reaction(
                    touched.derivation(d).kind->Reaction_0,
                ) && !touched.reaction(touched.derivation(d).kind->Reaction_0).is_disposed && !touched.reaction(
                    touched.derivation(d).kind->Reaction_0,
                ).is_scheduled) by {
                    assert(old(self).has_derivation(d));
                }
            }
        }
        let marked = self.mark_observers_stale(host, o, u64::MAX);
        if self.in_batch == 0 {
            marked?;
            return Err(Fault::BatchUnderflow);
        }
        self.exit_batch();
        proof {
            if old(self).marks_inline() || old(self).observers_of(o).len() == 0 {
                assert(self.spy_log().take(touched.spy_log().len() as int) =~= touched.spy_log());
                crate::runtime::lemma_reported_then_more(
                    *old(self),
                    touched,
                    *self,
                    old(self).listeners().len() > 0,
                    atom_change_events(*old(self), o),
                );
            }
        }
        proof {
            if old(self).marks_inline() || old(self).observers_of(o).len() == 0 {
                assert(touched.has_observable(o));
                assert(self.observable(o) == touched.observable(o));
                assert(self.warnings() == touched.warnings());
                assert(self.batch_spec() == touched.batch_spec() - 1);
                assert forall|p: ObservableId| #[trigger] old(self).has_observable(p) && p != o && old(self).observable(p).kind
                    == ObservableKind::Atom implies self.observable(p) == old(self).observable(p) by {
                    assert(p.id_value() != o.id_value());
                    assert(touched.has_observable(p));
                }
                assert(marked is Ok ==> forall|d: DerivationId|
                    #[trigger] prior.observers@.contains(d) && old(self).has_derivation(d)
                        && old(self).derivation(d).state.is_fresh() ==> self.derivation(d).state == DerivationState::Stale);
            }
        }
        marked
    }

    /// The first half of a change to an atom, before its observers are
    /// marked: the strict-mode check (a change that is not allowed records a
    /// warning, reported to the host and the spy listeners), the
    /// `ObservableWrite` event, a batch is entered, and the atom counts as
    /// changed.
    pub fn begin_atom_change<H: Host>(&mut self, host: &H, o: ObservableId)
        requires
            old(self).has_observable(o),
            old(self).observable(o).kind == ObservableKind::Atom,
        ensures
            final(self).atom_change_begun(old(self), o),
    {
        let observed = match self.observables.get(o) {
            Some(rec) => rec.is_being_observed,
            None => false,
        };
        let name = self.observable_name(o);
        let ghost violation_events = if change_allowed(old(self).allows_changes(), old(self).policy(), observed) {
            Seq::<(SpyKind, Seq<char>)>::empty()
        } else {
            seq![(SpyKind::StrictModeViolation, strict_mode_message(policy_label(old(self).policy()), name@))]
        };
        if let Some(warning) = self.evaluate_strict_mode_violation(name.as_str(), observed) {
            if self.has_spy_listeners() {
                let message = warning.clone();
                let event = SpyEvent::StrictModeViolation { message };
                let ghost before_emit = *self;
                emit_spy_event(self, host, &event);
                proof {
                    crate::runtime::lemma_one_event(before_emit, event);
                }
            }
            host.report_strict_mode_warning(warning.as_str());
            self.trace = Ghost(self.trace@.push(Step::Warned(o)));
        }
        let ghost checked = *self;
        proof {
            if !(old(self).listeners().len() > 0) || change_allowed(old(self).allows_changes(), old(self).policy(), observed) {
                assert(checked.spy_log() == old(self).spy_log());
                assert(violation_events =~= Seq::<(SpyKind, Seq<char>)>::empty() || !(old(self).listeners().len() > 0));
            }
            assert(checked.reported(old(self), old(self).listeners().len() > 0, violation_events)) by {
                if old(self).listeners().len() > 0 && change_allowed(old(self).allows_changes(), old(self).policy(), observed) {
                    assert(checked.spy_log().take(old(self).spy_log().len() as int) =~= old(self).spy_log());
                }
            }
        }
        if self.has_spy_listeners() {
            let event = SpyEvent::ObservableWrite { name };
            let ghost before_emit = *self;
            emit_spy_event(self, host, &event);
            proof {
                crate::runtime::lemma_one_event(before_emit, event);
            }
        }
        let ghost written = *self;
        proof {
            crate::runtime::lemma_reported_concat(
                *old(self),
                checked,
                written,
                old(self).listeners().len() > 0,
                violation_events,
                seq![(SpyKind::ObservableWrite, old(self).observable(o).name@)],
            );
            assert(atom_change_events(*old(self), o) =~= violation_events + seq![(SpyKind::ObservableWrite, old(self).observable(o).name@)]);
        }
        self.enter_batch();
        if let Some(mut rec) = self.observables.take(o) {
            rec.lowest_observer_state = DerivationState::Stale;
            rec.is_pending_unobservation = false;
            rec.diff_value = rec.diff_value.wrapping_add(1);
            self.observables.attach(o, rec);
        }
        proof {
            assert(self.observable_table() =~= old(self).observable_table().insert(o.id_value(), self.observable(o)));
            assert(self.trace() =~= old(self).trace() + warned_steps(*old(self), o));
        }
    }

    /// Propagates a change of a computed value to its observers: the value
    /// counts as changed and each observer that was up to date (or possibly
    /// stale) becomes stale.
    pub(crate) fn propagate_change_nested<H: Host>(&mut self, host: &H, o: ObservableId, depth: u64) -> (r:
        Result<(), Fault>)
        ensures
            old(self).marks_inline() ==> {
                &&& final(self).staled_from(old(self))
                &&& final(self).warnings() == old(self).warnings()
                &&& final(self).batch_spec() == old(self).batch_spec()
                &&& r is Ok || r == Err::<(), Fault>(Fault::DepthExhausted)
                &&& r is Ok && old(self).has_observable(o) && old(self).observable(o).kind != ObservableKind::Atom
                    ==> forall|d: DerivationId| #[trigger] old(self).observers_of(o).contains(d) ==> final(self).marked_stale(old(self), d)
            },
            final(self).keeps_tracking(old(self)),
            !old(self).running() && r is Ok ==> !final(self).running(),
            old(self).has_observable(o) && old(self).observable(o).kind != ObservableKind::Atom
                && old(self).observers_of(o).len() == 0 ==> r is Ok && final(self).bumped_from(old(self), o),
            old(self).has_observable(o) && old(self).observable(o).kind != ObservableKind::Atom ==> final(self).marked_after(old(self).trace(), old(self).observers_of(o), r is Ok),
            !(old(self).has_observable(o) && old(self).observable(o).kind != ObservableKind::Atom) ==> final(self).trace() == old(self).trace(),
        decreases depth, 2u64,
    {
        let is_computed = match self.observables.get(o) {
            Some(rec) => rec.kind != ObservableKind::Atom,
            None => false,
        };
        if !is_computed {
            proof {
                lemma_staled_from_refl(*self);
            }
            return Ok(());
        }
        if let Some(mut rec) = self.observables.take(o) {
            rec.lowest_observer_state = DerivationState::Stale;
            rec.diff_value = rec.diff_value.wrapping_add(1);
            self.observables.attach(o, rec);
        }
        let ghost touched = *self;
        proof {
            assert(self.observable_table().dom() =~= old(self).observable_table().dom());
            assert(self.pending().take(old(self).pending().len() as int) =~= old(self).pending());
            assert(self.spy_log().take(old(self).spy_log().len() as int) =~= old(self).spy_log());
            assert forall|p: ObservableId| #[trigger] old(self).has_observable(p) implies {
                let a = self.observable(p);
                let b = old(self).observable(p);
                &&& a.observers == b.observers
                &&& a.name == b.name
                &&& a.kind == b.kind
                &&& a.is_being_observed == b.is_being_observed
                &&& a.is_pending_unobservation == b.is_pending_unobservation
                &&& b.kind == ObservableKind::Atom ==> a == b
            } by {
                if p.id_value() == o.id_value() {
                    assert(p == o);
                }
            }
            assert(self.staled_from(old(self)));
        }
        proof {
            assert(touched.observers_of(o) == old(self).observers_of(o));
            assert(touched.derivation_table() == old(self).derivation_table());
            let b = old(self).observable(o);
            assert(touched.observable(o) == ObservableRecord {
                lowest_observer_state: DerivationState::Stale,
                diff_value: b.diff_value.wrapping_add(1),
                ..b
            });
            assert(touched.observable_table() =~= old(self).observable_table().insert(
                o.id_value(),
                touched.observable(o),
            ));
            assert(touched.same_context(old(self)));
            assert(touched.bumped_from(old(self), o));
            if old(self).marks_inline() {
                lemma_marks_inline_kept(*old(self), touched);
            }
        }
        let res = self.mark_observers_stale(host, o, depth);
        proof {
            if old(self).marks_inline() {
                lemma_staled_from_trans(*old(self), touched, *self);
            }
        }
        res
    }

    /// Marks the observers of the observable (as they are now) stale, in order.
    pub(crate) fn mark_observers_stale<H: Host>(&mut self, host: &H, o: ObservableId, depth: u64) -> (r:
        Result<(), Fault>)
        ensures
            old(self).marks_inline() ==> {
                &&& final(self).staled_from(old(self))
                &&& final(self).warnings() == old(self).warnings()
                &&& final(self).batch_spec() == old(self).batch_spec()
                &&& r is Ok || r == Err::<(), Fault>(Fault::DepthExhausted)
                &&& r is Ok && old(self).has_observable(o) ==> forall|d: DerivationId| #[trigger] old(self).observers_of(o).contains(d) ==> final(self).marked_stale(old(self), d)
            },
            old(self).has_observable(o) && old(self).observers_of(o).len() == 0 ==> r is Ok && *final(self)
                == *old(self),
            final(self).keeps_tracking(old(self)),
            !old(self).running() && r is Ok ==> !final(self).running(),
            !old(self).has_observable(o) ==> final(self).trace() == old(self).trace(),
            old(self).has_observable(o) ==> final(self).marked_after(old(self).trace(), old(self).observers_of(o), r is Ok),
        decreases depth, 1u64,
    {
        let observers = match self.observables.get(o) {
            Some(rec) => rec.observers.clone(),
            None => {
                proof {
                    lemma_staled_from_refl(*self);
                }
                return Ok(());
            },
        };
        proof {
            lemma_staled_from_refl(*self);
            assert(self.trace().skip(self.trace().len() as int) =~= Seq::<Step>::empty());
            assert(self.trace().take(self.trace().len() as int) =~= self.trace());
            assert(observers@.take(0) =~= Seq::<DerivationId>::empty());
        }
        let mut i: usize = 0;
        while i < observers.len()
            invariant
                0 <= i <= observers.len(),
                old(self).has_observable(o),
                observers@ == old(self).observers_of(o),
                observers@.len() == 0 ==> *self == *old(self),
                self.marked_after(old(self).trace(), observers@.take(i as int), true),
                self.keeps_tracking(old(self)),
                !old(self).running() ==> !self.running(),
                old(self).marks_inline() ==> {
                    &&& self.staled_from(old(self))
                    &&& self.warnings() == old(self).warnings()
                    &&& self.batch_spec() == old(self).batch_spec()
                    &&& forall|j: int| 0 <= j < i ==> self.marked_stale(old(self), #[trigger] observers@[j])
                },
            decreases observers.len() - i,
        {
            if depth == 0 {
                return Err(Fault::DepthExhausted);
            }
            let ghost before_step = *self;
            proof {
                if old(self).marks_inline() {
                    lemma_marks_inline_kept(*old(self), before_step);
                }
            }
            let res = self.mark_stale_nested(host, observers[i], depth - 1);
            proof {
                if old(self).marks_inline() {
                    lemma_staled_from_trans(*old(self), before_step, *self);
                }
                if old(self).marks_inline() && res is Ok {
                    assert forall|j: int| 0 <= j < i + 1 implies self.marked_stale(old(self), #[trigger] observers@[j]) by {
                        let e = observers@[j];
                        if j < i {
                            lemma_marked_stale_persists(*old(self), before_step, *self, e);
                        } else if old(self).has_derivation(e) && old(self).derivation(e).state.is_fresh() {
                            assert(before_step.has_derivation(e));
                            if before_step.derivation(e).state.is_fresh() {
                                assert(before_step.derivation(e) == old(self).derivation(e));
                                if old(self).is_live_reaction_derivation(e) {
                                    assert(before_step.has_reaction(old(self).derivation(e).kind->Reaction_0));
                                }
                            }
                        }
                    }
                }
            }
            proof {
                let n = old(self).trace().len() as int;
                assert(self.trace().take(n) =~= before_step.trace().take(n));
                assert(self.trace().skip(n) =~= before_step.trace().skip(n).push(self.trace().last()));
                assert(observers@.take(i + 1) =~= observers@.take(i as int).push(observers@[i as int]));
                lemma_marked_in_order_push(
                    before_step.trace().skip(n),
                    observers@.take(i as int),
                    self.trace().last(),
                    observers@[i as int],
                    res is Ok,
                );
                if res is Err {
                    lemma_marked_in_order_within(self.trace().skip(n), observers@, (i + 1) as int);
                }
            }
            if let Err(fault) = res {
                return Err(fault);
            }
            i = i + 1;
        }
        proof {
            assert(observers@.take(observers@.len() as int) =~= observers@);
        }
        proof {
            if old(self).marks_inline() {
                assert forall|d: DerivationId| #[trigger] old(self).observers_of(o).contains(d) implies self.marked_stale(
                    old(self),
                    d,
                ) by {
                    let j = choose|j: int| 0 <= j < observers@.len() && observers@[j] == d;
                    assert(observers@[j] == d);
                }
            }
        }
        Ok(())
    }

    /// A fresh derivation becomes stale: a reaction is scheduled, a computed
    /// value propagates the change to its own observers.
    pub(crate) fn mark_stale_nested<H: Host>(&mut self, host: &H, d: DerivationId, depth: u64) -> (r:
        Result<(), Fault>)
        ensures
            old(self).marks_inline() ==> {
                &&& final(self).staled_from(old(self))
                &&& final(self).warnings() == old(self).warnings()
                &&& final(self).batch_spec() == old(self).batch_spec()
                &&& r is Ok || r == Err::<(), Fault>(Fault::DepthExhausted)
                &&& r is Ok ==> final(self).marked_stale(old(self), d)
            },
            final(self).keeps_tracking(old(self)),
            !old(self).running() && r is Ok ==> !final(self).running(),
            final(self).marked_one(old(self), d, r is Ok),
        decreases depth, 0u64,
    {
        let ghost entry = self.trace@;
        let (state, kind) = match self.derivations.get(d) {
            Some(rec) => (rec.state, rec.kind),
            None => {
                self.trace = Ghost(entry.push(Step::Marked(d, None, None, None)));
                proof {
                    lemma_staled_from_refl(*old(self));
                }
                return Ok(());
            },
        };
        match state {
            DerivationState::UpToDate | DerivationState::PossiblyStale => {
                if depth == 0 {
                    self.trace = Ghost(entry.push(Step::Marked(d, Some(state), Some(state), self.scheduled_flag(d))));
                    proof {
                        lemma_staled_from_refl(*old(self));
                    }
                    return Err(Fault::DepthExhausted);
                }
                self.set_derivation_state(d, DerivationState::Stale);
                let ghost marked = *self;
                proof {
                    assert(self.has_derivation(d));
                    assert(self.state_of(d) == Some(DerivationState::Stale));
                }
                proof {
                    assert forall|e: DerivationId| #[trigger] old(self).has_derivation(e) implies {
                        let a = self.derivation(e);
                        let b = old(self).derivation(e);
                        &&& a == DerivationRecord { state: a.state, ..b }
                        &&& (a.state == b.state || (b.state.is_fresh() && a.state == DerivationState::Stale))
                    } by {
                        if e.id_value() == d.id_value() {
                            assert(e == d);
                        }
                    }
                    assert(self.pending().take(old(self).pending().len() as int) =~= old(self).pending());
                    assert(self.spy_log().take(old(self).spy_log().len() as int) =~= old(self).spy_log());
                    assert(self.derivation_table().dom() =~= old(self).derivation_table().dom());
                    assert(self.marking_step(old(self)));
                    assert forall|e: DerivationId| #[trigger] old(self).has_derivation(e) && e != d implies self.derivation(e)
                        == old(self).derivation(e) by {
                        assert(e.id_value() != d.id_value());
                    }
                }
                match kind {
                    DerivationKind::Reaction(reaction) => {
                        let queued = self.queue_if_live(host, reaction);
                        let ghost step = Step::Marked(d, Some(state), self.state_of(d), self.scheduled_flag(d));
                        let ghost ready = *self;
                        proof {
                            assert(ready.has_derivation(d));
                            assert(ready.derivation(d) == marked.derivation(d));
                            assert(ready.state_of(d) == Some(DerivationState::Stale));
                            if ready.is_live_reaction_derivation(d) {
                                assert(ready.derivation(d).kind->Reaction_0 == reaction);
                                assert(ready.reaction(reaction).is_scheduled);
                            }
                        }
                        let res = if queued && !self.is_running_reactions {
                            self.run_pending_reactions_nested(host)
                        } else {
                            Ok(())
                        };
                        proof {
                            if old(self).marks_inline() {
                                if !old(self).running() {
                                    assert(old(self).has_derivation(d) && old(self).derivation(d).state.is_fresh()
                                        && old(self).derivation(d).kind is Reaction);
                                    assert(!queued);
                                }
                                assert(*self == ready);
                                if queued {
                                    lemma_marking_step_trans(*old(self), marked, *self);
                                }
                                assert(marked.has_derivation(d));
                                assert forall|e: DerivationId|
                                    #[trigger] old(self).has_derivation(e) && old(self).derivation(e).state.is_fresh()
                                        && self.derivation(e).state == DerivationState::Stale
                                        && old(self).is_live_reaction_derivation(e) implies self.reaction(
                                    old(self).derivation(e).kind->Reaction_0,
                                ).is_scheduled by {
                                    if e != d {
                                        assert(marked.derivation(e) == old(self).derivation(e));
                                        assert(marked.has_derivation(e));
                                        assert(marked.is_live_reaction_derivation(e));
                                    } else {
                                        assert(old(self).derivation(d).kind->Reaction_0 == reaction);
                                    }
                                }
                            }
                        }
                        self.trace = Ghost(entry.push(step));
                        res
                    },
                    DerivationKind::Computed(observable) => {
                        self.set_derivation_state(d, DerivationState::Stale);
                        let ghost again = *self;
                        let ghost step = Step::Marked(d, Some(state), self.state_of(d), self.scheduled_flag(d));
                        proof {
                            assert(again.has_derivation(d));
                            assert(again.state_of(d) == Some(DerivationState::Stale));
                        }
                        proof {
                            assert forall|e: DerivationId| #[trigger] marked.has_derivation(e) implies {
                                let a = self.derivation(e);
                                let b = marked.derivation(e);
                                &&& a == DerivationRecord { state: a.state, ..b }
                                &&& (a.state == b.state || (b.state.is_fresh() && a.state == DerivationState::Stale))
                            } by {
                                if e.id_value() == d.id_value() {
                                    assert(e == d);
                                }
                            }
                            assert(self.pending().take(marked.pending().len() as int) =~= marked.pending());
                            assert(self.spy_log().take(marked.spy_log().len() as int) =~= marked.spy_log());
                            assert(self.derivation_table().dom() =~= marked.derivation_table().dom());
                            assert(self.marking_step(&marked));
                            lemma_marking_step_trans(*old(self), marked, again);
                            assert forall|e: DerivationId| #[trigger] old(self).has_derivation(e) && e != d implies self.derivation(e)
                                == old(self).derivation(e) by {
                                assert(e.id_value() != d.id_value());
                                assert(marked.derivation(e) == old(self).derivation(e));
                            }
                            assert(self.staled_from(old(self)));
                            if old(self).marks_inline() {
                                lemma_marks_inline_kept(*old(self), again);
                            }
                        }
                        let res = self.propagate_change_nested(host, observable, depth - 1);
                        proof {
                            if old(self).marks_inline() {
                                lemma_staled_from_trans(*old(self), again, *self);
                                assert(again.has_derivation(d));
                                assert(again.derivation(d).state == DerivationState::Stale);
                            }
                        }
                        self.trace = Ghost(entry.push(step));
                        res
                    },
                }
            },
            DerivationState::NotTracking | DerivationState::Stale => {
                self.trace = Ghost(entry.push(Step::Marked(d, Some(state), Some(state), self.scheduled_flag(d))));
                proof {
                    lemma_staled_from_refl(*old(self));
                }
                Ok(())
            },
        }
    }
}

} // verus!

verus! {

impl MobxRuntime {
    /// Removing `d` from the observers of `o`, which publishes a computed
    /// value, leaves it without observers, and suspending that computed value
    /// lets go of `o`'s observers only through `d` and suspends nothing
    /// further.
    pub open(crate) spec fn removal_suspends(&self, o: ObservableId, d: DerivationId) -> bool {
        let c = self.observable(o).kind->Computed_0;
        &&& self.has_observable(o)
        &&& self.observable(o).kind is Computed
        &&& swap_remove_first(self.observers_of(o), d).len() == 0
        &&& self.has_derivation(c)
        &&& !self.derivation(c).observing@.contains(o)
        &&& self.release_suspends_nothing(c)
    }

    /// `self` is `before` after a read of `o` that computes nothing: `o` is
    /// observed and no longer pending unobservation, the tracking derivation
    /// collected it, and `ObservableRead` was reported; nothing else changed.
    pub open(crate) spec fn read_from(&self, before_rt: &Self, o: ObservableId) -> bool {
        let before = before_rt.observable(o);
        let after = self.observable(o);
        &&& self.observable_table() == before_rt.observable_table().insert(o.id_value(), after)
        &&& after.is_being_observed
        &&& after.is_pending_unobservation == (before.is_pending_unobservation && before.is_being_observed)
        &&& after.observers == before.observers
        &&& after.name == before.name
        &&& after.kind == before.kind
        &&& after.diff_value == before.diff_value
        &&& after.lowest_observer_state == before.lowest_observer_state
        &&& self.collected_from(before_rt, o)
        &&& self.reaction_table() == before_rt.reaction_table()
        &&& self.issued_counts() == before_rt.issued_counts()
        &&& self.same_scalars(before_rt)
        &&& self.pending() == before_rt.pending()
        &&& self.warnings() == before_rt.warnings()
        &&& self.listeners() == before_rt.listeners()
        &&& self.tracking() == before_rt.tracking()
        &&& self.reported(
            before_rt,
            before_rt.listeners().len() > 0,
            seq![(SpyKind::ObservableRead, before.name@)],
        )
    }

    /// Reading `o` computes nothing: it is an atom, or a computed value
    /// that is up to date.
    pub open(crate) spec fn reads_without_computing(&self, o: ObservableId) -> bool {
        match self.observable(o).kind {
            ObservableKind::Atom => true,
            ObservableKind::Computed(c) => self.has_derivation(c) && self.derivation(c).state
                == DerivationState::UpToDate,
        }
    }

    /// `d` is the derivation of a reaction that is registered and not
    /// disposed.
    pub open(crate) spec fn is_live_reaction_derivation(&self, d: DerivationId) -> bool {
        &&& self.has_derivation(d)
        &&& self.derivation(d).kind is Reaction
        &&& self.has_reaction(self.derivation(d).kind->Reaction_0)
        &&& !self.reaction(self.derivation(d).kind->Reaction_0).is_disposed
    }

    /// If `d` was fresh in `before`, it is stale in `self`, and when it
    /// belongs to a live reaction, that reaction is scheduled.
    pub open(crate) spec fn marked_stale(&self, before: &Self, d: DerivationId) -> bool {
        before.has_derivation(d) && before.derivation(d).state.is_fresh() ==> {
            &&& self.derivation(d).state == DerivationState::Stale
            &&& before.is_live_reaction_derivation(d) ==> self.reaction(
                before.derivation(d).kind->Reaction_0,
            ).is_scheduled
        }
    }

    /// One step of marking or several: a derivation's state stays or goes
    /// from fresh to stale; an observable keeps its name, kind, observers
    /// and observation flags (an atom keeps everything); a reaction stays or
    /// becomes scheduled; the queue only grows, without repeats when it had
    /// none; flags, counters and the rest are unchanged.
    pub open(crate) spec fn marking_step(&self, before: &Self) -> bool {
        &&& self.derivation_table().dom() == before.derivation_table().dom()
        &&& forall|d: DerivationId| #[trigger] before.has_derivation(d) ==> {
            let a = self.derivation(d);
            let b = before.derivation(d);
            &&& a == DerivationRecord { state: a.state, ..b }
            &&& (a.state == b.state || (b.state.is_fresh() && a.state == DerivationState::Stale))
        }
        &&& self.observable_table().dom() == before.observable_table().dom()
        &&& forall|o: ObservableId| #[trigger] before.has_observable(o) ==> {
            let a = self.observable(o);
            let b = before.observable(o);
            &&& a.observers == b.observers
            &&& a.name == b.name
            &&& a.kind == b.kind
            &&& a.is_being_observed == b.is_being_observed
            &&& a.is_pending_unobservation == b.is_pending_unobservation
            &&& b.kind == ObservableKind::Atom ==> a == b
        }
        &&& self.reaction_table().dom() == before.reaction_table().dom()
        &&& forall|r: ReactionId| #[trigger] before.has_reaction(r) ==> {
            let a = self.reaction(r);
            let b = before.reaction(r);
            &&& a == ReactionRecord { is_scheduled: a.is_scheduled, ..b }
            &&& (a.is_scheduled == b.is_scheduled || (!b.is_disposed && a.is_scheduled))
        }
        &&& before.pending().len() <= self.pending().len()
        &&& self.pending().take(before.pending().len() as int) == before.pending()
        &&& before.spy_log().len() <= self.spy_log().len()
        &&& self.spy_log().take(before.spy_log().len() as int) == before.spy_log()
        &&& before.wf() ==> self.wf()
        &&& self.issued_counts() == before.issued_counts()
        &&& self.run_id_spec() == before.run_id_spec()
        &&& self.allows_changes() == before.allows_changes()
        &&& self.allows_reads() == before.allows_reads()
        &&& self.policy() == before.policy()
        &&& self.running() == before.running()
        &&& self.listeners() == before.listeners()
        &&& self.next_listener() == before.next_listener()
        &&& self.tracking() == before.tracking()
    }

    /// No live reaction that is not scheduled yet has a fresh derivation, so
    /// that marking derivations stale schedules nothing and starts no flush.
    pub open(crate) spec fn schedules_nothing(&self) -> bool {
        forall|d: DerivationId|
            #[trigger] self.has_derivation(d) && self.derivation(d).state.is_fresh() && self.derivation(d).kind is Reaction
                ==> !(self.has_reaction(self.derivation(d).kind->Reaction_0) && !self.reaction(
                self.derivation(d).kind->Reaction_0,
            ).is_disposed && !self.reaction(self.derivation(d).kind->Reaction_0).is_scheduled)
    }

    /// Marking derivations stale runs no user code: a flush is under way, so
    /// reactions are only queued, or marking schedules nothing.
    pub open(crate) spec fn marks_inline(&self) -> bool {
        self.running() || self.schedules_nothing()
    }

    /// `self` follows `before` by marking derivations stale and scheduling
    /// reactions only (see `marking_step`), and each live reaction whose
    /// derivation went from fresh to stale is scheduled.
    pub open(crate) spec fn staled_from(&self, before: &Self) -> bool {
        &&& self.marking_step(before)
        &&& forall|d: DerivationId|
            #[trigger] before.has_derivation(d) && before.derivation(d).state.is_fresh() && self.derivation(d).state
                == DerivationState::Stale && before.is_live_reaction_derivation(d) ==> self.reaction(
                before.derivation(d).kind->Reaction_0,
            ).is_scheduled
    }
}

/// The events a change to atom `o` reports first: the strict-mode violation
/// when the change is not allowed, then the write.
pub open spec fn atom_change_events(before: MobxRuntime, o: ObservableId) -> Seq<(SpyKind, Seq<char>)> {
    let prior = before.observable(o);
    let write = seq![(SpyKind::ObservableWrite, prior.name@)];
    if change_allowed(before.allows_changes(), before.policy(), prior.is_being_observed) {
        write
    } else {
        seq![(SpyKind::StrictModeViolation, strict_mode_message(policy_label(before.policy()), prior.name@))] + write
    }
}

/// The steps a change to atom `o` takes before it marks anything: the
/// strict-mode warning, when the change is not allowed.
pub open spec fn warned_steps(before: MobxRuntime, o: ObservableId) -> Seq<Step> {
    if change_allowed(before.allows_changes(), before.policy(), before.observable(o).is_being_observed) {
        Seq::empty()
    } else {
        seq![Step::Warned(o)]
    }
}

/// A marking step left its derivation as marking should: stale if it was up
/// to date or possibly stale, and then, for the derivation of a live
/// reaction, with that reaction scheduled.
pub open spec fn marking_done(step: Step) -> bool {
    match step {
        Step::Marked(_, was, now, scheduled) => {
            &&& now == marked_state(was)
            &&& match was {
                Some(state) => state.is_fresh() && scheduled is Some ==> scheduled == Some(true),
                None => true,
            }
        },
        _ => false,
    }
}

/// `steps` mark the derivations `ds` in order, one step each: a first few of
/// them, or all of them when `complete`, and then each as marking should
/// (see `marking_done`).
pub open spec fn marked_in_order(steps: Seq<Step>, ds: Seq<DerivationId>, complete: bool) -> bool {
    &&& steps.len() <= ds.len()
    &&& complete ==> steps.len() == ds.len()
    &&& forall|j: int| 0 <= j < steps.len() ==> (#[trigger] steps[j] is Marked && steps[j]->Marked_0 == ds[j])
    &&& complete ==> forall|j: int| 0 <= j < steps.len() ==> marking_done(#[trigger] steps[j])
}

impl MobxRuntime {
    /// The trace of `self` is `head` followed by steps that mark the
    /// derivations `ds` in order (see `marked_in_order`).
    pub open(crate) spec fn marked_after(&self, head: Seq<Step>, ds: Seq<DerivationId>, complete: bool) -> bool {
        &&& self.trace().len() >= head.len()
        &&& self.trace().take(head.len() as int) == head
        &&& marked_in_order(self.trace().skip(head.len() as int), ds, complete)
    }

    /// The trace of `self` is that of `before` and one step that marks `d`,
    /// with the state it had in `before`; when `complete`, that step left it
    /// stale if it was up to date or possibly stale.
    pub open(crate) spec fn marked_one(&self, before: &Self, d: DerivationId, complete: bool) -> bool {
        &&& self.trace() == before.trace().push(self.trace().last())
        &&& self.trace().last() is Marked
        &&& self.trace().last()->Marked_0 == d
        &&& self.trace().last()->Marked_1 == before.state_of(d)
        &&& complete ==> marking_done(self.trace().last())
    }

    /// For the derivation of a live reaction, whether that reaction is
    /// scheduled; `None` for any other derivation.
    pub open(crate) spec fn scheduled_flag(&self, d: DerivationId) -> Option<bool> {
        if self.is_live_reaction_derivation(d) {
            Some(self.reaction(self.derivation(d).kind->Reaction_0).is_scheduled)
        } else {
            None
        }
    }

    /// The trace of `self` follows that of `before` by the steps of a change
    /// to atom `o` with result `r`: the strict-mode warning first, when the
    /// change is not allowed, then one marking step for each derivation that
    /// observed `o`, in order (for all of them when `r` is `Ok`).
    pub open(crate) spec fn traced_atom_change(&self, before: &Self, o: ObservableId, r: Result<(), Fault>) -> bool {
        self.marked_after(before.trace() + warned_steps(*before, o), before.observers_of(o), r is Ok)
    }

    /// `self` follows `before` by the first half of a change to atom `o`:
    /// the strict-mode warning is recorded when the change was not allowed; a
    /// batch is entered (the depth saturates at `usize::MAX`); the atom's
    /// change counter is bumped (wrapping), its observers count as stale and
    /// it is no longer pending unobservation; nothing else changed.
    pub open(crate) spec fn atom_change_begun(&self, before: &Self, o: ObservableId) -> bool {
        let prior = before.observable(o);
        let after = self.observable(o);
        &&& change_allowed(before.allows_changes(), before.policy(), prior.is_being_observed)
            ==> self.warnings() == before.warnings()
        &&& !change_allowed(before.allows_changes(), before.policy(), prior.is_being_observed)
            ==> self.warnings() == before.warnings().push(
            strict_mode_message(policy_label(before.policy()), prior.name@),
        )
        &&& self.batch_spec() == if before.batch_spec() == usize::MAX {
            usize::MAX as int
        } else {
            before.batch_spec() + 1
        }
        &&& self.observable_table() == before.observable_table().insert(o.id_value(), after)
        &&& after.diff_value == prior.diff_value.wrapping_add(1)
        &&& after.lowest_observer_state == DerivationState::Stale
        &&& !after.is_pending_unobservation
        &&& after.is_being_observed == prior.is_being_observed
        &&& after.observers == prior.observers
        &&& after.name == prior.name
        &&& after.kind == prior.kind
        &&& self.derivation_table() == before.derivation_table()
        &&& self.reaction_table() == before.reaction_table()
        &&& self.issued_counts() == before.issued_counts()
        &&& self.pending() == before.pending()
        &&& self.listeners() == before.listeners()
        &&& self.next_listener() == before.next_listener()
        &&& self.tracking() == before.tracking()
        &&& self.run_id_spec() == before.run_id_spec()
        &&& self.allows_changes() == before.allows_changes()
        &&& self.allows_reads() == before.allows_reads()
        &&& self.policy() == before.policy()
        &&& self.running() == before.running()
        &&& before.wf() ==> self.wf()
        &&& self.reported(before, before.listeners().len() > 0, atom_change_events(*before, o))
        &&& self.trace() == before.trace() + warned_steps(*before, o)
    }

    /// `self` follows `before` by the change of atom `o` reported while
    /// reactions are being flushed, with result `r`: the strict-mode warning
    /// is recorded when the change was not allowed; the atom counts as
    /// changed; the derivations that observed it and were fresh are stale;
    /// the rest progressed by marking and scheduling only.
    /// `self` is `before` after a change of the computed value published by
    /// `o` reached no observer: `o` counts as changed (its counter bumped,
    /// wrapping, and its observers as stale), and nothing else changed.
    pub open(crate) spec fn bumped_from(&self, before: &Self, o: ObservableId) -> bool {
        let b = before.observable(o);
        &&& self.observable_table() == before.observable_table().insert(
            o.id_value(),
            ObservableRecord {
                lowest_observer_state: DerivationState::Stale,
                diff_value: b.diff_value.wrapping_add(1),
                ..b
            },
        )
        &&& self.derivation_table() == before.derivation_table()
        &&& self.same_context(before)
    }

    /// Besides the record of `o`, the warnings, the batch depth and the
    /// events of the change (see `atom_change_events`), `self` is `before`.
    pub open(crate) spec fn only_atom_changed(&self, before: &Self, o: ObservableId) -> bool {
        &&& self.observable_table() == before.observable_table().insert(o.id_value(), self.observable(o))
        &&& self.derivation_table() == before.derivation_table()
        &&& self.reaction_table() == before.reaction_table()
        &&& self.issued_counts() == before.issued_counts()
        &&& self.pending() == before.pending()
        &&& self.listeners() == before.listeners()
        &&& self.next_listener() == before.next_listener()
        &&& self.tracking() == before.tracking()
        &&& self.run_id_spec() == before.run_id_spec()
        &&& self.allows_changes() == before.allows_changes()
        &&& self.allows_reads() == before.allows_reads()
        &&& self.policy() == before.policy()
        &&& self.running() == before.running()
        &&& self.reported(before, before.listeners().len() > 0, atom_change_events(*before, o))
    }

    pub open(crate) spec fn changed_atom_from(&self, before: &Self, o: ObservableId, r: Result<(), Fault>) -> bool {
        let prior = before.observable(o);
        let after = self.observable(o);
        &&& change_allowed(before.allows_changes(), before.policy(), prior.is_being_observed)
            ==> self.warnings() == before.warnings()
        &&& !change_allowed(before.allows_changes(), before.policy(), prior.is_being_observed)
            ==> self.warnings() == before.warnings().push(
            strict_mode_message(policy_label(before.policy()), prior.name@),
        )
        &&& r is Ok || r == Err::<(), Fault>(Fault::DepthExhausted)
        &&& r is Ok ==> self.batch_spec() == if before.batch_spec() == usize::MAX {
            usize::MAX - 1
        } else {
            before.batch_spec() as int
        }
        &&& self.has_observable(o)
        &&& after.diff_value == prior.diff_value.wrapping_add(1)
        &&& after.lowest_observer_state == DerivationState::Stale
        &&& !after.is_pending_unobservation
        &&& after.is_being_observed == prior.is_being_observed
        &&& after.observers == prior.observers
        &&& after.name == prior.name
        &&& after.kind == prior.kind
        &&& forall|p: ObservableId|
            #[trigger] before.has_observable(p) && p != o && before.observable(p).kind == ObservableKind::Atom
                ==> self.observable(p) == before.observable(p)
        &&& r is Ok ==> forall|d: DerivationId| #[trigger] prior.observers@.contains(d) ==> self.marked_stale(before, d)
        &&& self.reported_first(before, before.listeners().len() > 0, atom_change_events(*before, o))
    }
}

/// Marking keeps marking free of user code.
pub proof fn lemma_marks_inline_kept(a: MobxRuntime, b: MobxRuntime)
    requires
        b.marking_step(&a),
        a.marks_inline(),
    ensures
        b.marks_inline(),
{
    if !a.running() {
        assert forall|d: DerivationId|
            #[trigger] b.has_derivation(d) && b.derivation(d).state.is_fresh() && b.derivation(d).kind is Reaction implies !(
        b.has_reaction(b.derivation(d).kind->Reaction_0) && !b.reaction(b.derivation(d).kind->Reaction_0).is_disposed
            && !b.reaction(b.derivation(d).kind->Reaction_0).is_scheduled) by {
            assert(a.has_derivation(d));
            let x = b.derivation(d).kind->Reaction_0;
            if b.has_reaction(x) {
                assert(a.has_reaction(x));
            }
        }
    }
}

/// Progress by marking and scheduling composes.
pub proof fn lemma_staled_from_trans(a: MobxRuntime, b: MobxRuntime, c: MobxRuntime)
    requires
        b.staled_from(&a),
        c.staled_from(&b),
    ensures
        c.staled_from(&a),
{
    lemma_marking_step_trans(a, b, c);
    assert forall|d: DerivationId|
        #[trigger] a.has_derivation(d) && a.derivation(d).state.is_fresh() && c.derivation(d).state
            == DerivationState::Stale && a.is_live_reaction_derivation(d) implies c.reaction(
        a.derivation(d).kind->Reaction_0,
    ).is_scheduled by {
        assert(b.has_derivation(d));
        let r = a.derivation(d).kind->Reaction_0;
        assert(b.has_reaction(r));
        if b.derivation(d).state.is_fresh() {
            assert(b.is_live_reaction_derivation(d));
        }
    }
}

/// Progress by marking and scheduling is reflexive.
pub proof fn lemma_staled_from_refl(rt: MobxRuntime)
    ensures
        rt.staled_from(&rt),
{
    assert(rt.pending().take(rt.pending().len() as int) =~= rt.pending());
    assert(rt.spy_log().take(rt.spy_log().len() as int) =~= rt.spy_log());
}

/// Marking steps compose.
pub proof fn lemma_marking_step_trans(a: MobxRuntime, b: MobxRuntime, c: MobxRuntime)
    requires
        b.marking_step(&a),
        c.marking_step(&b),
    ensures
        c.marking_step(&a),
{
    assert forall|d: DerivationId| #[trigger] a.has_derivation(d) implies {
        let x = c.derivation(d);
        let y = a.derivation(d);
        &&& x == DerivationRecord { state: x.state, ..y }
        &&& (x.state == y.state || (y.state.is_fresh() && x.state == DerivationState::Stale))
    } by {
        assert(b.has_derivation(d));
    }
    assert forall|o: ObservableId| #[trigger] a.has_observable(o) implies {
        let x = c.observable(o);
        let y = a.observable(o);
        &&& x.observers == y.observers
        &&& x.name == y.name
        &&& x.kind == y.kind
        &&& x.is_being_observed == y.is_being_observed
        &&& x.is_pending_unobservation == y.is_pending_unobservation
        &&& y.kind == ObservableKind::Atom ==> x == y
    } by {
        assert(b.has_observable(o));
    }
    assert forall|r: ReactionId| #[trigger] a.has_reaction(r) implies {
        let x = c.reaction(r);
        let y = a.reaction(r);
        &&& x == ReactionRecord { is_scheduled: x.is_scheduled, ..y }
        &&& (x.is_scheduled == y.is_scheduled || (!y.is_disposed && x.is_scheduled))
    } by {
        assert(b.has_reaction(r));
    }
    assert(c.pending().take(a.pending().len() as int) =~= a.pending()) by {
        assert(c.pending().take(a.pending().len() as int) =~= c.pending().take(b.pending().len() as int).take(
            a.pending().len() as int,
        ));
    }    assert(c.spy_log().take(a.spy_log().len() as int) =~= a.spy_log()) by {
        assert(c.spy_log().take(a.spy_log().len() as int) =~= c.spy_log().take(b.spy_log().len() as int).take(
            a.spy_log().len() as int,
        ));
    }
}

/// A derivation that occurs in a list has a first occurrence.
pub proof fn lemma_first_occurrence(s: Seq<DerivationId>, d: DerivationId)
    requires
        s.contains(d),
    ensures
        exists|i: int| 0 <= i < s.len() && s[i] == d && forall|j: int| 0 <= j < i ==> s[j] != d,
    decreases s.len(),
{
    if s[0] == d {
        assert(0 <= 0 < s.len() && s[0] == d && forall|j: int| 0 <= j < 0 ==> s[j] != d);
    } else {
        let k = choose|k: int| 0 <= k < s.len() && s[k] == d;
        assert(s.drop_first()[k - 1] == d);
        lemma_first_occurrence(s.drop_first(), d);
        let i = choose|i: int|
            0 <= i < s.drop_first().len() && s.drop_first()[i] == d && forall|j: int| 0 <= j < i ==> s.drop_first()[j] != d;
        assert forall|j: int| 0 <= j < i + 1 implies s[j] != d by {
            if j > 0 {
                assert(s[j] == s.drop_first()[j - 1]);
            }
        }
        assert(s[i + 1] == d);
    }
}

/// Removing `d` leaves every other derivation where it was.
pub proof fn lemma_swap_remove_first_others(s: Seq<DerivationId>, d: DerivationId, x: DerivationId)
    requires
        x != d,
    ensures
        swap_remove_first(s, d).contains(x) == s.contains(x),
{
    if s.contains(d) {
        lemma_first_occurrence(s, d);
        let i = choose|i: int| 0 <= i < s.len() && s[i] == d && forall|j: int| 0 <= j < i ==> s[j] != d;
        let t = s.update(i, s.last()).drop_last();
        if s.contains(x) {
            let k = choose|k: int| 0 <= k < s.len() && s[k] == x;
            if k == s.len() - 1 {
                assert(i != s.len() - 1);
                assert(t[i] == x);
            } else {
                assert(k != i);
                assert(t[k] == s[k]);
            }
        }
        if t.contains(x) {
            let k = choose|k: int| 0 <= k < t.len() && t[k] == x;
            if k == i {
                assert(s[s.len() - 1] == x);
            } else {
                assert(s[k] == x);
            }
        }
    }
}

/// Attaching `d` leaves every other derivation where it was and adds no
/// repeat.
pub proof fn lemma_attach_others(s: Seq<DerivationId>, d: DerivationId, x: DerivationId)
    ensures
        x != d ==> (if s.contains(d) {
            s
        } else {
            s.push(d)
        }).contains(x) == s.contains(x),
        s.no_duplicates() ==> (if s.contains(d) {
            s
        } else {
            s.push(d)
        }).no_duplicates(),
{
    if !s.contains(d) {
        let t = s.push(d);
        if x != d && t.contains(x) {
            let k = choose|k: int| 0 <= k < t.len() && t[k] == x;
            assert(k < s.len());
            assert(t[k] == s[k]);
        }
        if x != d && s.contains(x) {
            let k = choose|k: int| 0 <= k < s.len() && s[k] == x;
            assert(t[k] == s[k]);
        }
        if s.no_duplicates() {
            assert forall|i: int, j: int| 0 <= i < j < t.len() implies t[i] != t[j] by {
                if j == s.len() {
                    assert(t[i] == s[i]);
                }
            }
        }
    }
}

/// Removing `d` from a list where it occurs once leaves no `d` behind.
pub proof fn lemma_swap_remove_first_unique(s: Seq<DerivationId>, d: DerivationId)
    requires
        s.no_duplicates(),
    ensures
        !swap_remove_first(s, d).contains(d),
        swap_remove_first(s, d).no_duplicates(),
{
    if s.contains(d) {
        let i = choose|i: int| 0 <= i < s.len() && s[i] == d && forall|j: int| 0 <= j < i ==> s[j] != d;
        let t = s.update(i, s.last()).drop_last();
        assert forall|k: int| 0 <= k < t.len() implies t[k] != d by {
            if k == i {
                assert(s[s.len() - 1] != d || s.len() - 1 == i);
            } else {
                assert(s[k] != d || k == i);
            }
        }
        assert forall|k: int, l: int| 0 <= k < l < t.len() implies t[k] != t[l] by {
            if k == i {
                assert(t[k] == s[s.len() - 1]);
                assert(t[l] == s[l]);
            } else if l == i {
                assert(t[l] == s[s.len() - 1]);
                assert(t[k] == s[k]);
            } else {
                assert(t[k] == s[k] && t[l] == s[l]);
            }
        }
    }
}

/// Attaching a derivation that was not an observer and removing it again
/// gives back the observers as they were.
pub proof fn law_attach_then_remove_observer(
    a: ObservableRecord,
    b: ObservableRecord,
    c: ObservableRecord,
    d: DerivationId,
)
    requires
        !a.observers@.contains(d),
        observer_attached(a, b, d),
        observer_removed(b, c, d),
    ensures
        c.observers@ == a.observers@,
{
    let s = b.observers@;
    assert(s == a.observers@.push(d));
    assert(s.contains(d)) by {
        assert(s[s.len() - 1] == d);
    }
    let i = choose|i: int| 0 <= i < s.len() && s[i] == d && forall|j: int| 0 <= j < i ==> s[j] != d;
    assert(i == s.len() - 1) by {
        if i < s.len() - 1 {
            assert(a.observers@[i] == d);
        }
    }
    assert(s.update(i, s.last()).drop_last() =~= a.observers@);
}

/// What marking established stays established while marking goes on.
pub proof fn lemma_marked_stale_persists(a: MobxRuntime, b: MobxRuntime, c: MobxRuntime, d: DerivationId)
    requires
        b.staled_from(&a),
        b.marked_stale(&a, d),
        c.staled_from(&b),
    ensures
        c.marked_stale(&a, d),
{
    if a.has_derivation(d) && a.derivation(d).state.is_fresh() {
        assert(b.has_derivation(d));
        if a.is_live_reaction_derivation(d) {
            assert(b.has_reaction(a.derivation(d).kind->Reaction_0));
        }
    }
}

/// One more marking step extends the marking of a list by one derivation.
pub proof fn lemma_marked_in_order_push(steps: Seq<Step>, ds: Seq<DerivationId>, step: Step, d: DerivationId, complete: bool)
    requires
        marked_in_order(steps, ds, true),
        step is Marked,
        step->Marked_0 == d,
        complete ==> marking_done(step),
    ensures
        marked_in_order(steps.push(step), ds.push(d), complete),
{
    assert forall|j: int| 0 <= j < steps.push(step).len() implies (#[trigger] steps.push(step)[j] is Marked
        && steps.push(step)[j]->Marked_0 == ds.push(d)[j]) by {
        if j < steps.len() {
            assert(steps.push(step)[j] == steps[j]);
        }
    }
    if complete {
        assert forall|j: int| 0 <= j < steps.push(step).len() implies marking_done(#[trigger] steps.push(step)[j]) by {
            if j < steps.len() {
                assert(steps.push(step)[j] == steps[j]);
            }
        }
    }
}

/// Steps that mark the first `k` derivations of a list, but not all of
/// them, mark a first few of the list.
pub proof fn lemma_marked_in_order_within(steps: Seq<Step>, ds: Seq<DerivationId>, k: int)
    requires
        0 <= k <= ds.len(),
        marked_in_order(steps, ds.take(k), false),
    ensures
        marked_in_order(steps, ds, false),
{
    assert forall|j: int| 0 <= j < steps.len() implies (#[trigger] steps[j] is Marked && steps[j]->Marked_0 == ds[j]) by {
        assert(ds.take(k)[j] == ds[j]);
    }
}

/// A change to an atom that succeeds marks every derivation that observed
/// it, each once, in the order they started observing it: each one that was
/// up to date or possibly stale when its turn came is left stale, and a live
/// reaction's is left scheduled; whatever the reactions that run meanwhile
/// do.
pub proof fn law_change_marks_every_observer(before: MobxRuntime, after: MobxRuntime, o: ObservableId)
    requires
        before.has_observable(o),
        before.observable(o).kind == ObservableKind::Atom,
        after.traced_atom_change(&before, o, Ok(())),
    ensures
        ({
            let start = before.trace().len() + warned_steps(before, o).len();
            &&& after.trace().len() == start + before.observers_of(o).len()
            &&& forall|j: int|
                0 <= j < before.observers_of(o).len() ==> {
                    let step = #[trigger] after.trace()[start + j];
                    &&& step is Marked
                    &&& step->Marked_0 == before.observers_of(o)[j]
                    &&& marking_done(step)
                }
        }),
        forall|d: DerivationId| #[trigger]
            before.observers_of(o).contains(d) ==> exists|step: Step|
                #[trigger] after.trace().contains(step) && step is Marked && step->Marked_0 == d && marking_done(step),
{
    let head = before.trace() + warned_steps(before, o);
    let start = head.len() as int;
    let marks = after.trace().skip(start);
    assert forall|j: int| 0 <= j < before.observers_of(o).len() implies {
        let step = #[trigger] after.trace()[start + j];
        &&& step is Marked
        &&& step->Marked_0 == before.observers_of(o)[j]
        &&& marking_done(step)
    } by {
        assert(marks[j] == after.trace()[start + j]);
    }
    assert forall|d: DerivationId| #[trigger] before.observers_of(o).contains(d) implies exists|step: Step|
        #[trigger] after.trace().contains(step) && step is Marked && step->Marked_0 == d && marking_done(step) by {
        let j = choose|j: int| 0 <= j < before.observers_of(o).len() && before.observers_of(o)[j] == d;
        assert(marks[j] == after.trace()[start + j]);
        let step = after.trace()[start + j];
        assert(after.trace().contains(step));
    }
}

/// Every change to an atom first records the strict-mode warning, before it
/// marks anything, exactly when the change is not allowed: outside an
/// action, under the `Always` policy, or under `Observed` for an atom that is
/// observed. Nothing the reactions it runs do afterwards takes it back.
pub proof fn law_change_warns_when_not_allowed(
    before: MobxRuntime,
    after: MobxRuntime,
    o: ObservableId,
    r: Result<(), Fault>,
)
    requires
        before.has_observable(o),
        before.observable(o).kind == ObservableKind::Atom,
        after.traced_atom_change(&before, o, r),
    ensures
        after.trace().take(before.trace().len() as int) == before.trace(),
        !change_allowed(before.allows_changes(), before.policy(), before.observable(o).is_being_observed) <==> (
        after.trace().len() > before.trace().len() && after.trace()[before.trace().len() as int] == Step::Warned(o)),
{
    let n = before.trace().len() as int;
    let head = before.trace() + warned_steps(before, o);
    assert(after.trace().take(head.len() as int) == head);
    assert(after.trace().take(n) =~= head.take(n)) by {
        assert forall|i: int| 0 <= i < n implies after.trace().take(n)[i] == head.take(n)[i] by {
            assert(after.trace()[i] == after.trace().take(head.len() as int)[i]);
        }
    }
    assert(head.take(n) =~= before.trace());
    if !change_allowed(before.allows_changes(), before.policy(), before.observable(o).is_being_observed) {
        assert(after.trace()[n] == after.trace().take(head.len() as int)[n]);
        assert(head[n] == Step::Warned(o));
    } else {
        assert(head =~= before.trace());
        if after.trace().len() > n {
            let marks = after.trace().skip(n);
            assert(marks[0] == after.trace()[n]);
            assert(marks[0] is Marked);
        }
    }
}

/// A read that is allowed, of a registered observable, is handed to the
/// tracking derivation to collect, once, whether or not the read computes a
/// computed value; and when it computes nothing, the dependencies the
/// tracking derivation is collecting end with the observable.
pub proof fn law_read_collected(before: MobxRuntime, after: MobxRuntime, o: ObservableId, r: Result<bool, Fault>)
    requires
        before.allows_reads(),
        before.has_observable(o),
        after.trace() == before.trace().push(Step::Collected(before.tracking(), o)),
        before.reads_without_computing(o) ==> r == Ok::<bool, Fault>(true) && after.read_from(&before, o),
    ensures
        after.trace().drop_last() == before.trace(),
        after.trace().last() == Step::Collected(before.tracking(), o),
        before.reads_without_computing(o) ==> r == Ok::<bool, Fault>(true) && match before.tracking() {
            Some(t) => before.has_derivation(t) ==> {
                &&& after.derivation(t).new_observing@.len() == before.derivation(t).new_observing@.len() + 1
                &&& after.derivation(t).new_observing@.last() == o
            },
            None => after.derivation_table() == before.derivation_table(),
        },
{
    assert(after.trace().drop_last() =~= before.trace());
}

} // verus!

//! Computed values: memoized derivations that are observable themselves.
use crate::derivation::{
    dedup, lemma_dependency_count_insert, lemma_dependency_count_remove, DerivationKind, DerivationRecord,
    DerivationState, TrackFrame,
};
use crate::fmt::{decimal, name_with_number};
use crate::host::Host;
use crate::ids::{DerivationId, ObservableId, RawId};
use crate::observable::{observer_attached, observer_removed, ObservableKind, ObservableRecord};
use crate::runtime::{Fault, MobxRuntime};
use crate::spy::{emit_spy_event, SpyEvent, SpyKind};
use vstd::prelude::*;

verus! {

/// The values a computed value can hold: cloneable and comparable, so that a
/// recomputation that yields an equal value counts as no change.
pub trait ComputedValue: Clone + PartialEq + 'static {

}

impl<T: Clone + PartialEq + 'static> ComputedValue for T {

}

/// Error returned when a computed value without a setter is assigned to.
#[derive(Debug, PartialEq, Eq)]
pub struct ComputedSetError {
    name: String,
}

impl ComputedSetError {
    /// The error for the named computed value.
    pub fn new(name: String) -> (e: Self)
        ensures
            e.computed_name() == name@,
    {
        ComputedSetError { name }
    }

    /// The name of the computed value.
    pub closed spec fn computed_name(&self) -> Seq<char> {
        self.name@
    }

    /// The name of the computed value.
    pub fn name(&self) -> (r: &str)
        ensures
            r@ == self.computed_name(),
    {
        self.name.as_str()
    }

    /// The message: ``computed value `NAME` does not provide a setter``.
    pub fn message(&self) -> (r: String)
        ensures
            r@ == "computed value `"@ + self.computed_name() + "` does not provide a setter"@,
    {
        let mut r = String::from_str("computed value `");
        r.append(self.name.as_str());
        r.append("` does not provide a setter");
        r
    }
}

/// The name a computed value gets: the given one, or `Computed@` followed
/// by its derivation identifier.
pub open spec fn computed_name_for(name: Option<String>, c: DerivationId) -> Seq<char> {
    match name {
        Some(n) => n@,
        None => "Computed@"@ + decimal(c.id_value() as nat),
    }
}

/// A computation of a computed value whose getter is under way: what
/// `begin_computation` set up for `settle_computation`.
pub struct ComputationRun {
    observable: ObservableId,
    frame: TrackFrame,
    emit_spy: bool,
}

impl ComputationRun {
    /// The observable that publishes the computed value.
    pub closed spec fn observable(&self) -> ObservableId {
        self.observable
    }

    /// The read permission found when the computation began.
    pub closed spec fn saved_reads(&self) -> bool {
        self.frame.saved_reads()
    }

    /// The tracking derivation found when the computation began.
    pub closed spec fn saved_tracking(&self) -> Option<DerivationId> {
        self.frame.saved_tracking()
    }

    /// Whether spy events are reported for this computation.
    pub closed spec fn reports(&self) -> bool {
        self.emit_spy
    }
}

impl MobxRuntime {
    /// `c` is the derivation of a computed value whose observable is
    /// registered and refers back to it.
    pub open(crate) spec fn is_computed_pair(&self, c: DerivationId) -> bool {
        &&& self.has_derivation(c)
        &&& self.derivation(c).kind is Computed
        &&& self.has_observable(self.derivation(c).kind->Computed_0)
        &&& self.observable(self.derivation(c).kind->Computed_0).kind == ObservableKind::Computed(c)
    }

    /// `self` is `before` after suspending the computed value `c`: it no
    /// longer tracks anything, has no dependencies (the last ones are kept
    /// as collected ones) and was removed from the observers of those it
    /// had; nothing else changed.
    pub open(crate) spec fn suspended_from(&self, before: &Self, c: DerivationId) -> bool {
        let b = before.derivation(c);
        let a = self.derivation(c);
        &&& self.derivation_table() == before.derivation_table().insert(c.id_value(), a)
        &&& a.observing@ == Seq::<ObservableId>::empty()
        &&& a.new_observing@ == b.observing@
        &&& a.state == DerivationState::NotTracking
        &&& a.unbound_deps_count == 0
        &&& a.name == b.name
        &&& a.kind == b.kind
        &&& a.run_id == b.run_id
        &&& a.requires_observable == b.requires_observable
        &&& a.keep_alive == b.keep_alive
        &&& a.is_computing == b.is_computing
        &&& self.observable_table().dom() == before.observable_table().dom()
        &&& forall|o: ObservableId| #[trigger] before.has_observable(o) ==> if b.observing@.contains(o) {
            observer_removed(before.observable(o), self.observable(o), c)
        } else {
            self.observable(o) == before.observable(o)
        }
        &&& self.same_context(before)
    }

    /// Creates a computed value that has not computed yet: an observable and a
    /// derivation that refer to each other. Without a name it is named
    /// `Computed@` followed by its derivation identifier.
    pub fn create_computed(&mut self, name: Option<String>, keep_alive: bool, requires_reaction: bool) -> (r:
        Result<DerivationId, Fault>)
        ensures
            old(self).issued_counts().0 == u64::MAX || old(self).issued_counts().1 == u64::MAX ==> r
                == Err::<DerivationId, Fault>(Fault::CounterOverflow) && *final(self) == *old(self),
            old(self).issued_counts().0 < u64::MAX && old(self).issued_counts().1 < u64::MAX ==> (r matches Ok(
                c,
            ) && {
                let rec = final(self).derivation(c);
                &&& c.id_value() == old(self).issued_counts().1 + 1
                &&& final(self).issued_counts() == (
                    (old(self).issued_counts().0 + 1) as u64,
                    c.id_value(),
                    old(self).issued_counts().2,
                )
                &&& final(self).derivation_table() == old(self).derivation_table().insert(c.id_value(), rec)
                &&& rec.name@ == computed_name_for(name, c)
                &&& rec.observing@ == Seq::<ObservableId>::empty()
                &&& rec.new_observing@ == Seq::<ObservableId>::empty()
                &&& rec.state == DerivationState::NotTracking
                &&& rec.run_id == 0
                &&& rec.unbound_deps_count == 0
                &&& rec.requires_observable == requires_reaction
                &&& rec.keep_alive == keep_alive
                &&& !rec.is_computing
                &&& rec.kind matches DerivationKind::Computed(o) && {
                    let obs = final(self).observable(o);
                    &&& o.id_value() == old(self).issued_counts().0 + 1
                    &&& final(self).observable_table() == old(self).observable_table().insert(o.id_value(), obs)
                    &&& obs.name@ == rec.name@
                    &&& obs.kind == ObservableKind::Computed(c)
                    &&& obs.observers@ == Seq::<DerivationId>::empty()
                    &&& obs.diff_value == 0
                    &&& !obs.is_being_observed
                    &&& !obs.is_pending_unobservation
                    &&& obs.lowest_observer_state == DerivationState::UpToDate
                }
            }),
            final(self).reaction_table() == old(self).reaction_table(),
            final(self).same_scalars(old(self)),
            final(self).tracking() == old(self).tracking(),
            final(self).pending() == old(self).pending(),
            final(self).warnings() == old(self).warnings(),
            final(self).listeners() == old(self).listeners(),
            final(self).next_listener() == old(self).next_listener(),
    {
        if self.observables.issued() == u64::MAX || self.derivations.issued() == u64::MAX {
            return Err(Fault::CounterOverflow);
        }
        let observable_id: ObservableId = self.observables.reserve();
        let derivation_id: DerivationId = self.derivations.reserve();
        let name = match name {
            Some(name) => name,
            None => name_with_number("Computed@", derivation_id.get()),
        };
        let observable_name = name.clone();
        self.observables.attach(
            observable_id,
            ObservableRecord::new(observable_name, ObservableKind::Computed(derivation_id)),
        );
        self.derivations.attach(
            derivation_id,
            DerivationRecord::new(name, DerivationKind::Computed(observable_id), requires_reaction, keep_alive),
        );
        Ok(derivation_id)
    }

    /// The observable that publishes the computed value (`None` for a
    /// reaction's derivation or an unknown one).
    pub fn computed_observable(&self, c: DerivationId) -> (r: Option<ObservableId>)
        ensures
            r == (if self.has_derivation(c) {
                match self.derivation(c).kind {
                    DerivationKind::Computed(o) => Some(o),
                    DerivationKind::Reaction(_) => None,
                }
            } else {
                None::<ObservableId>
            }),
    {
        match self.derivations.get(c) {
            Some(rec) => match rec.kind {
                DerivationKind::Computed(o) => Some(o),
                DerivationKind::Reaction(_) => None,
            },
            None => None,
        }
    }

    /// The name of the derivation (empty when it has no record).
    pub fn derivation_name(&self, d: DerivationId) -> (r: String)
        ensures
            self.has_derivation(d) ==> r@ == self.derivation(d).name@,
            !self.has_derivation(d) ==> r@ == Seq::<char>::empty(),
    {
        match self.derivations.get(d) {
            Some(rec) => rec.name.clone(),
            None => String::new(),
        }
    }

    /// The outcome of assigning to the computed value, given whether it has a
    /// setter (which the caller has then run): success, or the error naming
    /// the computed value.
    pub fn computed_set_outcome(&self, c: DerivationId, has_setter: bool) -> (r: Result<(), ComputedSetError>)
        ensures
            has_setter <==> r is Ok,
            r matches Err(e) ==> e.computed_name() == (if self.has_derivation(c) {
                self.derivation(c).name@
            } else {
                Seq::<char>::empty()
            }),
    {
        if has_setter {
            Ok(())
        } else {
            Err(ComputedSetError::new(self.derivation_name(c)))
        }
    }

    /// Reads the computed value: it is reported observed, and it (re)computes
    /// when its state asks for it. The host holds the value afterwards.
    pub fn computed_get<H: Host>(&mut self, host: &H, c: DerivationId) -> (r: Result<(), Fault>)
        ensures
            old(self).is_computed_pair(c) && old(self).derivation(c).state != DerivationState::UpToDate ==> {
                let prior = old(self).derivation(c);
                &&& prior.is_computing ==> (r matches Err(Fault::RecursiveComputation(name)) && name@ == prior.name@)
                &&& !prior.is_computing && old(self).run_id_spec() == u64::MAX ==> r == Err::<(), Fault>(
                    Fault::CounterOverflow,
                )
            },
            !old(self).has_derivation(c) || old(self).derivation(c).kind is Reaction ==> r is Ok && *final(self)
                == *old(self),
            old(self).is_computed_pair(c) && old(self).derivation(c).state == DerivationState::UpToDate ==> {
                let o = old(self).derivation(c).kind->Computed_0;
                &&& r is Ok
                &&& !old(self).allows_reads() ==> *final(self) == *old(self)
                &&& old(self).allows_reads() ==> {
                    &&& final(self).observable(o).is_being_observed
                    &&& final(self).collected_from(old(self), o)
                    &&& final(self).derivation(c).state == DerivationState::UpToDate
                    &&& final(self).observable_table().dom() == old(self).observable_table().dom()
                    &&& final(self).reaction_table() == old(self).reaction_table()
                    &&& final(self).issued_counts() == old(self).issued_counts()
                    &&& final(self).same_scalars(old(self))
                    &&& final(self).pending() == old(self).pending()
                    &&& final(self).warnings() == old(self).warnings()
                    &&& final(self).listeners() == old(self).listeners()
                    &&& final(self).tracking() == old(self).tracking()
                }
            },
            final(self).keeps_tracking(old(self)),
            old(self).is_computed_pair(c) && !old(self).derivation(c).is_computing && old(self).run_id_spec()
                < u64::MAX && r is Ok && final(self).running() && final(self).has_derivation(c) ==> {
                let after = final(self).derivation(c);
                &&& !after.is_computing
                &&& (after.state == DerivationState::UpToDate || after.state == DerivationState::Stale
                    || after.state == DerivationState::NotTracking)
            },
    {
        let o = match self.computed_observable(c) {
            Some(o) => o,
            None => {
                return Ok(());
            },
        };
        self.report_observed(host, o)?;
        if self.should_compute(c) {
            self.track_and_compute_nested(host, c, u64::MAX)?;
        }
        Ok(())
    }

    pub(crate) fn track_and_compute_nested<H: Host>(&mut self, host: &H, c: DerivationId, depth: u64) -> (r:
        Result<(), Fault>)
        ensures
            !old(self).has_derivation(c) || old(self).derivation(c).kind is Reaction ==> r is Ok && *final(self)
                == *old(self),
            old(self).has_derivation(c) && old(self).derivation(c).kind is Computed && old(self).derivation(
                c,
            ).is_computing ==> (r matches Err(Fault::RecursiveComputation(name)) && name@ == old(self).derivation(
                c,
            ).name@),
            old(self).has_derivation(c) && old(self).derivation(c).kind is Computed && !old(self).derivation(
                c,
            ).is_computing && old(self).run_id_spec() == u64::MAX ==> r == Err::<(), Fault>(Fault::CounterOverflow)
                && final(self).same_but_log(old(self)),
            final(self).keeps_tracking(old(self)),
            old(self).has_derivation(c) && old(self).derivation(c).kind is Computed && !old(self).derivation(
                c,
            ).is_computing && old(self).run_id_spec() < u64::MAX && r is Ok && final(self).running()
                && final(self).has_derivation(c) ==> {
                let after = final(self).derivation(c);
                &&& !after.is_computing
                &&& (after.state == DerivationState::UpToDate || after.state == DerivationState::Stale
                    || after.state == DerivationState::NotTracking)
            },
    {
        let run = match self.begin_computation(host, c)? {
            Some(run) => run,
            None => {
                return Ok(());
            },
        };
        let changed = host.evaluate_computed(self, c);
        let (keep_alive, emit_spy) = self.settle_computation(host, c, run)?;
        self.publish_computation(host, c, changed, keep_alive, emit_spy, depth)
    }

    /// The first half of a computation of the computed value, up to its
    /// getter: `ComputedStart` is reported, and unless it is computing
    /// already, it is marked computing and starts a tracked run.
    pub fn begin_computation<H: Host>(&mut self, host: &H, c: DerivationId) -> (r: Result<
        Option<ComputationRun>,
        Fault,
    >)
        ensures
            !old(self).has_derivation(c) || old(self).derivation(c).kind is Reaction ==> r == Ok::<
                Option<ComputationRun>,
                Fault,
            >(None) && *final(self) == *old(self),
            old(self).has_derivation(c) && old(self).derivation(c).kind is Computed ==> {
                let prior = old(self).derivation(c);
                &&& prior.is_computing ==> (r matches Err(Fault::RecursiveComputation(name)) && name@
                    == prior.name@) && final(self).same_but_log(old(self))
                &&& !prior.is_computing && old(self).run_id_spec() == u64::MAX ==> r == Err::<
                    Option<ComputationRun>,
                    Fault,
                >(Fault::CounterOverflow) && final(self).same_but_log(old(self))
                &&& final(self).reported(
                    old(self),
                    old(self).listeners().len() > 0,
                    seq![(SpyKind::ComputedStart, prior.name@)],
                )
                &&& !prior.is_computing && old(self).run_id_spec() < u64::MAX ==> (r matches Ok(Some(run)) && {
                    let mid = old(self).derivation_table().insert(
                        c.id_value(),
                        DerivationRecord { is_computing: true, ..prior },
                    );
                    &&& prior.kind == DerivationKind::Computed(run.observable())
                    &&& run.saved_reads() == old(self).allows_reads()
                    &&& run.saved_tracking() == old(self).tracking()
                    &&& run.reports() == (old(self).listeners().len() > 0)
                    &&& final(self).derivation(c).is_computing
                    &&& final(self).tracking_begun(old(self), c)
                    &&& final(self).reaction_table() == old(self).reaction_table()
                })
            },
    {
        let (o, computing) = match self.derivations.get(c) {
            Some(rec) => match rec.kind {
                DerivationKind::Computed(o) => (o, rec.is_computing),
                DerivationKind::Reaction(_) => {
                    return Ok(None);
                },
            },
            None => {
                return Ok(None);
            },
        };
        let emit_spy = self.has_spy_listeners();
        if emit_spy {
            let name = self.derivation_name(c);
            let event = SpyEvent::ComputedStart { name, derivation_id: c.get() };
            let ghost before_emit = *self;
            emit_spy_event(self, host, &event);
            proof {
                crate::runtime::lemma_one_event(before_emit, event);
            }
        }
        if computing {
            return Err(Fault::RecursiveComputation(self.derivation_name(c)));
        }
        if self.run_id == u64::MAX {
            return Err(Fault::CounterOverflow);
        }
        let mut rec = match self.derivations.take(c) {
            Some(rec) => rec,
            None => {
                return Ok(None);
            },
        };
        rec.is_computing = true;
        self.derivations.attach(c, rec);
        let ghost marked = *self;
        proof {
            assert(self.derivation_table() =~= old(self).derivation_table().insert(c.id_value(), self.derivation(c)));
        }
        let frame = match self.begin_tracking(c) {
            Ok(frame) => frame,
            Err(fault) => {
                return Err(fault);
            },
        };
        proof {
            assert(self.tracking_begun(&marked, c));
            assert(self.derivation_table() =~= old(self).derivation_table().insert(c.id_value(), self.derivation(c)));
            assert(self.tracking_begun(old(self), c));
        }
        Ok(Some(ComputationRun { observable: o, frame, emit_spy }))
    }

    /// The middle of a computation, after the getter: tracking ends and the
    /// collected dependencies are bound; the value is no longer computing
    /// and is up to date as of the current run. Returns whether it is kept
    /// alive and whether spy events are reported.
    pub fn settle_computation<H: Host>(&mut self, host: &H, c: DerivationId, run: ComputationRun) -> (r: Result<
        (bool, bool),
        Fault,
    >)
        ensures
            r is Ok,
            final(self).tracking() == run.saved_tracking(),
            final(self).allows_reads() == run.saved_reads(),
            final(self).run_id_spec() == old(self).run_id_spec(),
            final(self).derivation_table().dom() == old(self).derivation_table().dom(),
            old(self).has_derivation(c) ==> {
                let after = final(self).derivation(c);
                &&& !after.is_computing
                &&& after.state == DerivationState::UpToDate
                &&& after.run_id == final(self).run_id_spec()
            },
            old(self).has_derivation(c) ==> forall|o: ObservableId|
                #[trigger] dedup(old(self).derivation(c).new_observing@).contains(o) && final(self).has_observable(o)
                    ==> final(self).observers_of(o).contains(c) && final(self).observable(o).is_being_observed,
            old(self).has_derivation(c) && old(self).binding_suspends_nothing(c) ==> {
                let prior = old(self).derivation(c);
                let after = final(self).derivation(c);
                let new = dedup(prior.new_observing@);
                let prev = prior.observing@;
                &&& r == Ok::<(bool, bool), Fault>((prior.keep_alive, run.reports()))
                &&& final(self).tracking() == run.saved_tracking()
                &&& final(self).allows_reads() == run.saved_reads()
                &&& final(self).run_id_spec() == old(self).run_id_spec()
                &&& final(self).batch_spec() == old(self).batch_spec()
                &&& final(self).allows_changes() == old(self).allows_changes()
                &&& final(self).policy() == old(self).policy()
                &&& final(self).running() == old(self).running()
                &&& final(self).reaction_table() == old(self).reaction_table()
                &&& final(self).issued_counts() == old(self).issued_counts()
                &&& final(self).pending() == old(self).pending()
                &&& final(self).warnings() == old(self).warnings()
                &&& final(self).listeners() == old(self).listeners()
                &&& final(self).next_listener() == old(self).next_listener()
                &&& final(self).derivation_table() == old(self).derivation_table().insert(c.id_value(), after)
                &&& after.observing@ == new
                &&& after.new_observing@ == prev
                &&& after.unbound_deps_count == new.len()
                &&& after.state == DerivationState::UpToDate
                &&& after.run_id == old(self).run_id_spec()
                &&& !after.is_computing
                &&& after.name == prior.name
                &&& after.kind == prior.kind
                &&& after.requires_observable == prior.requires_observable
                &&& after.keep_alive == prior.keep_alive
                &&& final(self).observable_table().dom() == old(self).observable_table().dom()
                &&& forall|o: ObservableId| #[trigger] old(self).has_observable(o) ==> if new.contains(o) {
                    observer_attached(old(self).observable(o), final(self).observable(o), c)
                } else if prev.contains(o) {
                    observer_removed(old(self).observable(o), final(self).observable(o), c)
                } else {
                    final(self).observable(o) == old(self).observable(o)
                }
            },
    {
        let ComputationRun { observable: _, frame, emit_spy } = run;
        let ghost start = *self;
        let ended_tracking = self.end_tracking(host, c, frame);
        proof {
            assert(ended_tracking is Ok);
        }
        let ghost ended = *self;
        let run_id = self.current_run_id();
        let mut keep_alive = false;
        if let Some(mut rec) = self.derivations.take(c) {
            rec.is_computing = false;
            rec.state = DerivationState::UpToDate;
            rec.run_id = run_id;
            keep_alive = rec.keep_alive;
            self.derivations.attach(c, rec);
        }
        proof {
            if start.has_derivation(c) && start.binding_suspends_nothing(c) {
                assert(self.derivation_table() =~= start.derivation_table().insert(c.id_value(), self.derivation(c)));
                assert forall|o: ObservableId| #[trigger] start.has_observable(o) implies if dedup(
                    start.derivation(c).new_observing@,
                ).contains(o) {
                    observer_attached(start.observable(o), self.observable(o), c)
                } else if start.derivation(c).observing@.contains(o) {
                    observer_removed(start.observable(o), self.observable(o), c)
                } else {
                    self.observable(o) == start.observable(o)
                } by {
                    assert(ended.has_observable(o));
                }
            }
        }
        Ok((keep_alive, emit_spy))
    }

    /// The end of a computation: a changed value propagates to its
    /// observers; a value neither kept alive nor observed is suspended;
    /// `ComputedEnd` is reported.
    #[verifier::rlimit(60)]
    #[verifier::spinoff_prover]
    pub fn publish_computation<H: Host>(
        &mut self,
        host: &H,
        c: DerivationId,
        changed: bool,
        keep_alive: bool,
        emit_spy: bool,
        depth: u64,
    ) -> (r: Result<(), Fault>)
        ensures
            old(self).is_computed_pair(c) && old(self).derivation(c).keep_alive == keep_alive ==> {
                let o = old(self).derivation(c).kind->Computed_0;
                let observed = old(self).observable(o).is_being_observed;
                &&& !changed && (keep_alive || observed) ==> r is Ok && final(self).same_but_log(old(self))
                    && final(self).reported(old(self), emit_spy, seq![(SpyKind::ComputedEnd, old(self).derivation(c).name@)])
                &&& !changed && !keep_alive && !observed && old(self).release_suspends_nothing(c) ==> r is Ok
                    && final(self).suspended_from(old(self), c)
                &&& changed && !keep_alive && !observed && old(self).observers_of(o).len() == 0
                    && !old(self).derivation(c).observing@.contains(o) && old(self).release_suspends_nothing(c) ==> r is Ok
                    && exists|mid: MobxRuntime| #[trigger] mid.bumped_from(old(self), o) && final(self).suspended_from(&mid, c)
                &&& changed && (keep_alive || observed) && old(self).marks_inline() ==> {
                    &&& r is Ok || r == Err::<(), Fault>(Fault::DepthExhausted)
                    &&& final(self).staled_from(old(self))
                    &&& final(self).warnings() == old(self).warnings()
                    &&& final(self).batch_spec() == old(self).batch_spec()
                    &&& r is Ok ==> forall|d: DerivationId|
                        #[trigger] old(self).observers_of(o).contains(d) && old(self).has_derivation(d)
                            && old(self).derivation(d).state.is_fresh() ==> final(self).derivation(d).state
                            == DerivationState::Stale
                }
            },
            final(self).keeps_tracking(old(self)),
            !old(self).running() && r is Ok ==> !final(self).running(),
            old(self).marks_inline() && old(self).has_derivation(c) ==> {
                let a = final(self).derivation(c);
                let b = old(self).derivation(c);
                &&& final(self).has_derivation(c)
                &&& a.is_computing == b.is_computing
                &&& (a.state == b.state || a.state == DerivationState::Stale || a.state
                    == DerivationState::NotTracking)
            },
            !old(self).has_derivation(c) ==> r is Ok && *final(self) == *old(self),
        decreases depth, 3u64,
    {
        let o = match self.computed_observable(c) {
            Some(o) => o,
            None => {
                return Ok(());
            },
        };
        if changed {
            self.propagate_change_nested(host, o, depth)?;
        }
        let ghost after_change = *self;
        proof {
            if changed && old(self).is_computed_pair(c) && old(self).observers_of(o).len() == 0
                && !old(self).derivation(c).observing@.contains(o) && old(self).release_suspends_nothing(c) {
                assert(after_change.bumped_from(old(self), o));
                assert forall|p: ObservableId| #[trigger] after_change.derivation(c).observing@.contains(p) implies after_change.unobserving_suspends_nothing(
                    p,
                    c,
                ) by {
                    assert(old(self).unobserving_suspends_nothing(p, c));
                    assert(p != o);
                    if after_change.has_observable(p) {
                        assert(p.id_value() != o.id_value());
                        assert(after_change.observable(p) == old(self).observable(p));
                    }
                }
                assert(after_change.release_suspends_nothing(c));
            }
        }
        let observed = match self.observables.get(o) {
            Some(rec) => rec.is_being_observed,
            None => false,
        };
        if !keep_alive && !observed {
            self.suspend_computed_nested(host, c)?;
        }
        if emit_spy {
            let name = self.derivation_name(c);
            let event = SpyEvent::ComputedEnd { name, derivation_id: c.get(), changed };
            let ghost before_emit = *self;
            emit_spy_event(self, host, &event);
            proof {
                crate::runtime::lemma_one_event(before_emit, event);
                assert(self.spy_log().take(before_emit.spy_log().len() as int) =~= before_emit.spy_log());
                assert(self.pending().take(before_emit.pending().len() as int) =~= before_emit.pending());
                assert(self.staled_from(&before_emit));
                if before_emit.staled_from(old(self)) {
                    crate::observable::lemma_staled_from_trans(*old(self), before_emit, *self);
                }
            }
        }
        Ok(())
    }

    /// Suspends the computed value unless it is kept alive: its value is
    /// dropped, it stops tracking, and it lets go of its dependencies.
    pub(crate) fn suspend_computed_nested<H: Host>(&mut self, host: &H, c: DerivationId) -> (r: Result<(), Fault>)
        ensures
            final(self).cascade_frame(old(self), c),
            final(self).spy_log() == old(self).spy_log(),
            r is Ok,
            final(self).same_context(old(self)),
            final(self).derivation_table().dom() == old(self).derivation_table().dom(),
            final(self).observable_table().dom() == old(self).observable_table().dom(),
            final(self).dependencies_total() <= old(self).dependencies_total(),
            final(self).marks_kept(old(self)),
            !old(self).has_derivation(c) || old(self).derivation(c).keep_alive ==> *final(self) == *old(self),
            old(self).has_derivation(c) && !old(self).derivation(c).keep_alive && old(self).release_suspends_nothing(c)
                ==> final(self).suspended_from(old(self), c),
        decreases old(self).dependencies_total(), 0u64,
    {
        let suspend = match self.derivations.get(c) {
            Some(rec) => !rec.keep_alive,
            None => false,
        };
        if !suspend {
            return Ok(());
        }
        let mut rec = match self.derivations.take(c) {
            Some(rec) => rec,
            None => {
                return Ok(());
            },
        };
        let releases = rec.observing.len() > 0;
        rec.state = DerivationState::NotTracking;
        rec.new_observing = Vec::new();
        if !releases {
            rec.unbound_deps_count = 0;
        }
        self.derivations.attach(c, rec);
        let ghost cleared = *self;
        proof {
            assert(self.derivation_table() =~= old(self).derivation_table().insert(c.id_value(), self.derivation(c)));
            old(self).lemma_tables_finite();
            lemma_dependency_count_remove(old(self).derivation_table(), c.id_value());
            lemma_dependency_count_insert(old(self).derivation_table(), c.id_value(), self.derivation(c));
            assert(dedup(cleared.derivation(c).new_observing@) =~= Seq::<ObservableId>::empty());
            assert(cleared.derivation_table().remove(c.id_value()) =~= old(self).derivation_table().remove(
                c.id_value(),
            ));
            if old(self).release_suspends_nothing(c) {
                assert forall|o: ObservableId|
                    #[trigger] cleared.derivation(c).observing@.contains(o) && !dedup(
                        cleared.derivation(c).new_observing@,
                    ).contains(o) implies cleared.unobserving_suspends_nothing(o, c) by {
                    assert(old(self).derivation(c).observing@.contains(o));
                    assert(old(self).unobserving_suspends_nothing(o, c));
                    if cleared.has_observable(o) {
                        assert(cleared.observable(o) == old(self).observable(o));
                    }
                }
                assert(cleared.binding_suspends_nothing(c));
            }
        }
        proof {
            assert forall|x: DerivationId| #[trigger]
                old(self).has_derivation(x) && x != c && old(self).unpublished(x) implies cleared.derivation(x)
                == old(self).derivation(x) by {
                assert(x.id_value() != c.id_value());
            }
            assert(cleared.cascade_frame(old(self), c));
        }
        host.discard_computed_value(c);
        if !releases {
            proof {
                assert(self.derivation(c).observing@ =~= Seq::<ObservableId>::empty());
                assert(self.derivation(c).new_observing@ =~= old(self).derivation(c).observing@);
            }
            return Ok(());
        }
        let res = self.bind_dependencies(host, c);
        proof {
            crate::derivation::lemma_cascade_frame_trans(*old(self), cleared, *self, c, c);
        }
        proof {
            if old(self).release_suspends_nothing(c) {
                assert(self.derivation_table() =~= old(self).derivation_table().insert(c.id_value(), self.derivation(c)));
                assert forall|o: ObservableId| #[trigger] old(self).has_observable(o) implies if old(self).derivation(
                    c,
                ).observing@.contains(o) {
                    observer_removed(old(self).observable(o), self.observable(o), c)
                } else {
                    self.observable(o) == old(self).observable(o)
                } by {
                    assert(cleared.has_observable(o));
                }
            }
        }
        res
    }
}

} // verus!

//! Reactions: derived side effects that re-run when their dependencies change.
use crate::derivation::{dedup, DerivationKind, DerivationRecord, DerivationState, TrackFrame};
use crate::observable::{observer_attached, observer_removed, ObservableKind};
use crate::fmt::{decimal, name_with_number};
use crate::host::Host;
use crate::ids::{DerivationId, ObservableId, RawId, ReactionId};
use crate::runtime::{Fault, MobxRuntime};
use crate::spy::{emit_spy_event, SpyEvent, SpyKind};
use vstd::prelude::*;

verus! {

/// Bookkeeping the runtime keeps for one reaction.
pub struct ReactionRecord {
    pub derivation: DerivationId,
    pub is_scheduled: bool,
    pub is_running: bool,
    pub is_disposed: bool,
}

/// Configuration of a reaction: its effect, its name, and whether it must
/// track at least one observable.
pub struct ReactionOptions<E> {
    pub name: Option<String>,
    pub effect: E,
    pub requires_observable: bool,
}

impl<E> ReactionOptions<E> {
    /// A configuration with the mandatory effect, no name, and no requirement
    /// to track observables.
    pub fn new(effect: E) -> (r: Self)
        ensures
            r.name is None,
            r.effect == effect,
            !r.requires_observable,
    {
        ReactionOptions { name: None, effect, requires_observable: false }
    }

    /// Sets the human readable name for diagnostics.
    pub fn name(self, name: String) -> (r: Self)
        ensures
            r.name == Some(name),
            r.effect == self.effect,
            r.requires_observable == self.requires_observable,
    {
        ReactionOptions { name: Some(name), ..self }
    }

    /// Requires at least one observable dependency to be tracked; a reaction
    /// that tracks none after a run is disposed.
    pub fn requires_observable(self, required: bool) -> (r: Self)
        ensures
            r.name == self.name,
            r.effect == self.effect,
            r.requires_observable == required,
    {
        ReactionOptions { requires_observable: required, ..self }
    }
}

/// A run of a reaction whose effect is under way: what
/// `begin_reaction_run` set up for `finish_reaction_run`.
pub struct ReactionRun {
    derivation: DerivationId,
    frame: TrackFrame,
    emit_spy: bool,
}

impl ReactionRun {
    /// The derivation of the running reaction.
    pub closed spec fn derivation(&self) -> DerivationId {
        self.derivation
    }

    /// The read permission found when the run began.
    pub closed spec fn saved_reads(&self) -> bool {
        self.frame.saved_reads()
    }

    /// The tracking derivation found when the run began.
    pub closed spec fn saved_tracking(&self) -> Option<DerivationId> {
        self.frame.saved_tracking()
    }

    /// Whether the run reports its end to the spy listeners (it does when
    /// there were listeners as it began).
    pub closed spec fn reports(&self) -> bool {
        self.emit_spy
    }
}

/// Handle to a reaction that can be scheduled, run or disposed.
#[derive(Clone, Copy, Debug, PartialEq, Eq, Structural)]
pub struct ReactionHandle {
    id: ReactionId,
}

/// The name a reaction gets: the given one, or `Reaction@` followed by its
/// identifier.
pub open spec fn reaction_name_for(name: Option<String>, r: ReactionId) -> Seq<char> {
    match name {
        Some(n) => n@,
        None => "Reaction@"@ + decimal(r.id_value() as nat),
    }
}

impl MobxRuntime {
    /// The record of a reaction.
    pub open(crate) spec fn reaction(&self, r: ReactionId) -> ReactionRecord {
        self.reaction_table()[r.id_value()]
    }

    /// Whether the runtime has a record for the reaction.
    pub open(crate) spec fn has_reaction(&self, r: ReactionId) -> bool {
        self.reaction_table().contains_key(r.id_value())
    }

    /// The name a reaction is reported under: the name of its derivation
    /// (empty when either record is missing).
    pub open(crate) spec fn reaction_name_spec(&self, r: ReactionId) -> Seq<char> {
        if self.has_reaction(r) && self.has_derivation(self.reaction(r).derivation) {
            self.derivation(self.reaction(r).derivation).name@
        } else {
            Seq::<char>::empty()
        }
    }

    /// Letting go of all the dependencies of `d` suspends nothing: it lists
    /// them without repeats, and none is a computed value left without
    /// observers.
    pub open(crate) spec fn release_suspends_nothing(&self, d: DerivationId) -> bool {
        let rec = self.derivation(d);
        &&& rec.observing@.no_duplicates()
        &&& forall|o: ObservableId| #[trigger] rec.observing@.contains(o) ==> self.unobserving_suspends_nothing(o, d)
    }

    /// Disposing the reaction suspends nothing (see
    /// `release_suspends_nothing`), or it has no derivation record.
    pub open(crate) spec fn disposal_suspends_nothing(&self, r: ReactionId) -> bool {
        let d = self.reaction(r).derivation;
        self.has_derivation(d) ==> self.release_suspends_nothing(d)
    }

    /// `self` is `before` after disposing the live reaction `r`: it is
    /// disposed and unscheduled; its derivation no longer tracks anything,
    /// has no dependencies and was removed from the observers of those it
    /// had; nothing else changed (the queue keeps whatever it held).
    pub open(crate) spec fn disposed_from(&self, before: &Self, r: ReactionId) -> bool {
        let prior = before.reaction(r);
        let d = prior.derivation;
        &&& self.reaction_table() == before.reaction_table().insert(
            r.id_value(),
            ReactionRecord { is_disposed: true, is_scheduled: false, ..prior },
        )
        &&& before.has_derivation(d) ==> {
            let b = before.derivation(d);
            let a = self.derivation(d);
            &&& self.derivation_table() == before.derivation_table().insert(d.id_value(), a)
            &&& a.observing@ == Seq::<ObservableId>::empty()
            &&& a.new_observing@ == Seq::<ObservableId>::empty()
            &&& a.state == DerivationState::NotTracking
            &&& a.unbound_deps_count == 0
            &&& a.name == b.name
            &&& a.kind == b.kind
            &&& a.run_id == b.run_id
            &&& a.requires_observable == b.requires_observable
            &&& a.keep_alive == b.keep_alive
            &&& a.is_computing == b.is_computing
            &&& self.observable_table().dom() == before.observable_table().dom()
            &&& forall|o: ObservableId| #[trigger] before.has_observable(o) ==> if b.observing@.contains(o) {
                observer_removed(before.observable(o), self.observable(o), d)
            } else {
                self.observable(o) == before.observable(o)
            }
        }
        &&& !before.has_derivation(d) ==> self.derivation_table() == before.derivation_table()
            && self.observable_table() == before.observable_table()
        &&& self.same_scalars(before)
        &&& self.tracking() == before.tracking()
        &&& self.issued_counts() == before.issued_counts()
        &&& self.pending() == before.pending()
        &&& self.warnings() == before.warnings()
        &&& self.listeners() == before.listeners()
        &&& self.next_listener() == before.next_listener()
    }

    /// The derivation through which the reaction tracks its dependencies;
    /// `None` when it has no record.
    pub fn reaction_derivation(&self, r: ReactionId) -> (d: Option<DerivationId>)
        ensures
            d == (if self.has_reaction(r) {
                Some(self.reaction(r).derivation)
            } else {
                None::<DerivationId>
            }),
    {
        match self.reactions.get(r) {
            Some(rec) => Some(rec.derivation),
            None => None,
        }
    }

    /// Whether the reaction is scheduled (`false` when it has no record).
    pub fn is_reaction_scheduled(&self, r: ReactionId) -> (res: bool)
        ensures
            res == (self.has_reaction(r) && self.reaction(r).is_scheduled),
    {
        match self.reactions.get(r) {
            Some(rec) => rec.is_scheduled,
            None => false,
        }
    }

    /// The name of the reaction (empty when it has no record).
    pub fn reaction_name(&self, r: ReactionId) -> (s: String)
        ensures
            s@ == self.reaction_name_spec(r),
    {
        match self.reactions.get(r) {
            Some(rec) => match self.derivations.get(rec.derivation) {
                Some(d) => d.name.clone(),
                None => String::new(),
            },
            None => String::new(),
        }
    }

    /// Creates a reaction that has not run yet. Without a name it is named
    /// `Reaction@` followed by its identifier.
    pub fn create_reaction(&mut self, name: Option<String>, requires_observable: bool) -> (r: Result<
        ReactionId,
        Fault,
    >)
        ensures
            old(self).issued_counts().1 == u64::MAX || old(self).issued_counts().2 == u64::MAX ==> r == Err::<
                ReactionId,
                Fault,
            >(Fault::CounterOverflow) && *final(self) == *old(self),
            old(self).issued_counts().1 < u64::MAX && old(self).issued_counts().2 < u64::MAX ==> (r matches Ok(
                id,
            ) && {
                let rec = final(self).reaction(id);
                let d = rec.derivation;
                let drec = final(self).derivation(d);
                &&& id.id_value() == old(self).issued_counts().2 + 1
                &&& d.id_value() == old(self).issued_counts().1 + 1
                &&& final(self).issued_counts() == (old(self).issued_counts().0, d.id_value(), id.id_value())
                &&& final(self).reaction_table() == old(self).reaction_table().insert(id.id_value(), rec)
                &&& !rec.is_scheduled && !rec.is_running && !rec.is_disposed
                &&& final(self).derivation_table() == old(self).derivation_table().insert(d.id_value(), drec)
                &&& drec.name@ == reaction_name_for(name, id)
                &&& drec.kind == DerivationKind::Reaction(id)
                &&& drec.observing@ == Seq::<ObservableId>::empty()
                &&& drec.new_observing@ == Seq::<ObservableId>::empty()
                &&& drec.state == DerivationState::NotTracking
                &&& drec.run_id == 0
                &&& drec.unbound_deps_count == 0
                &&& drec.requires_observable == requires_observable
                &&& !drec.keep_alive
                &&& !drec.is_computing
            }),
            final(self).observable_table() == old(self).observable_table(),
            final(self).same_scalars(old(self)),
            final(self).tracking() == old(self).tracking(),
            final(self).pending() == old(self).pending(),
            final(self).warnings() == old(self).warnings(),
            final(self).listeners() == old(self).listeners(),
            final(self).next_listener() == old(self).next_listener(),
    {
        if self.reactions.issued() == u64::MAX || self.derivations.issued() == u64::MAX {
            return Err(Fault::CounterOverflow);
        }
        let reaction_id: ReactionId = self.reactions.reserve();
        let derivation_id: DerivationId = self.derivations.reserve();
        let name = match name {
            Some(name) => name,
            None => name_with_number("Reaction@", reaction_id.get()),
        };
        self.derivations.attach(
            derivation_id,
            DerivationRecord::new(name, DerivationKind::Reaction(reaction_id), requires_observable, false),
        );
        self.reactions.attach(
            reaction_id,
            ReactionRecord {
                derivation: derivation_id,
                is_scheduled: false,
                is_running: false,
                is_disposed: false,
            },
        );
        Ok(reaction_id)
    }

    /// `self` is `before` after queueing the live, unscheduled reaction `r`:
    /// it is marked scheduled and queued unless already queued; nothing
    /// else changed.
    pub open(crate) spec fn queued_from(&self, before: &Self, r: ReactionId) -> bool {
        &&& self.reaction_table() == before.reaction_table().insert(
            r.id_value(),
            ReactionRecord { is_scheduled: true, ..before.reaction(r) },
        )
        &&& self.pending() == if before.pending().contains(r) {
            before.pending()
        } else {
            before.pending().push(r)
        }
        &&& self.same_except_reactions_and_queue(before)
    }

    /// `self` and `res` are what scheduling `r` from `before` leads to: a
    /// reaction that is unknown, disposed or already scheduled changes
    /// nothing; inside a flush it is only queued (marked scheduled); outside
    /// one it is queued and the queue is flushed (see `flushed_from`).
    pub open(crate) spec fn scheduled_from(&self, before: &Self, r: ReactionId, res: Result<(), Fault>) -> bool {
        let live = before.has_reaction(r) && !before.reaction(r).is_disposed;
        &&& !live || before.reaction(r).is_scheduled ==> res is Ok && *self == *before
        &&& before.running() ==> {
            &&& res is Ok
            &&& self.staled_from(before)
            &&& self.warnings() == before.warnings()
            &&& self.batch_spec() == before.batch_spec()
            &&& self.derivation_table() == before.derivation_table()
            &&& self.observable_table() == before.observable_table()
            &&& live ==> {
                &&& self.reaction(r).is_scheduled
                &&& !before.reaction(r).is_scheduled ==> self.pending().contains(r)
            }
        }
        &&& !before.running() && live && !before.reaction(r).is_scheduled ==> exists|mid: MobxRuntime|
            #[trigger] mid.queued_from(before, r) && self.flushed_from(&mid, res)
        &&& self.keeps_tracking(before)
        &&& !before.running() && res is Ok ==> !self.running()
    }

    /// Schedules the reaction: unless it is disposed or already scheduled, it
    /// is queued and the queue is flushed.
    pub fn schedule_reaction<H: Host>(&mut self, host: &H, r: ReactionId) -> (res: Result<(), Fault>)
        ensures
            final(self).scheduled_from(old(self), r, res),
    {
        self.schedule_reaction_nested(host, r)
    }

    pub(crate) fn schedule_reaction_nested<H: Host>(&mut self, host: &H, r: ReactionId) -> (res: Result<(), Fault>)
        ensures
            final(self).scheduled_from(old(self), r, res),
    {
        if !self.queue_if_live(host, r) {
            proof {
                crate::observable::lemma_staled_from_refl(*self);
            }
            return Ok(());
        }
        let ghost queued = *self;
        proof {
            assert(queued.reaction(r).is_scheduled);
            if !old(self).pending().contains(r) {
                assert(queued.pending()[queued.pending().len() - 1] == r);
            }
        }
        if !self.is_running_reactions {
            self.run_pending_reactions_nested(host)?;
        }
        Ok(())
    }

    /// Queues the reaction when it is registered, not disposed and not
    /// scheduled yet (see `queue_reaction`), and returns whether it did.
    pub(crate) fn queue_if_live<H: Host>(&mut self, host: &H, r: ReactionId) -> (queued: bool)
        ensures
            queued == (old(self).has_reaction(r) && !old(self).reaction(r).is_disposed && !old(
                self,
            ).reaction(r).is_scheduled),
            !queued ==> *final(self) == *old(self),
            queued ==> final(self).queued_from(old(self), r) && final(self).staled_from(old(self)),
    {
        let known = match self.reactions.get(r) {
            Some(rec) => !rec.is_disposed && !rec.is_scheduled,
            None => false,
        };
        if !known {
            return false;
        }
        self.queue_reaction(host, r);
        proof {
            assert(self.reaction_table().dom() =~= old(self).reaction_table().dom());
            assert(self.pending().take(old(self).pending().len() as int) =~= old(self).pending());
            assert(self.spy_log().take(old(self).spy_log().len() as int) =~= old(self).spy_log());
            assert forall|q: ReactionId| #[trigger] old(self).has_reaction(q) implies {
                let a = self.reaction(q);
                let b = old(self).reaction(q);
                &&& a == ReactionRecord { is_scheduled: a.is_scheduled, ..b }
                &&& (a.is_scheduled == b.is_scheduled || (!b.is_disposed && a.is_scheduled))
            } by {
                if q.id_value() == r.id_value() {
                    assert(q == r);
                }
            }
            assert(self.queued_from(old(self), r));
        }
        true
    }

    /// The first half of scheduling a live, unscheduled reaction, before
    /// the flush: it is marked scheduled, queued unless already queued, and
    /// `ReactionScheduled` is reported.
    pub fn queue_reaction<H: Host>(&mut self, host: &H, r: ReactionId)
        requires
            old(self).has_reaction(r),
            !old(self).reaction(r).is_disposed,
            !old(self).reaction(r).is_scheduled,
        ensures
            final(self).reported(old(self), old(self).listeners().len() > 0, seq![(SpyKind::ReactionScheduled, old(self).reaction_name_spec(r))]),
            final(self).reaction_table() == old(self).reaction_table().insert(
                r.id_value(),
                ReactionRecord { is_scheduled: true, ..old(self).reaction(r) },
            ),
            final(self).pending() == if old(self).pending().contains(r) {
                old(self).pending()
            } else {
                old(self).pending().push(r)
            },
            final(self).pending().contains(r),
            old(self).wf() ==> final(self).wf(),
            final(self).same_except_reactions_and_queue(old(self)),
    {
        let mut rec = match self.reactions.take(r) {
            Some(rec) => rec,
            None => {
                return;
            },
        };
        rec.is_scheduled = true;
        self.reactions.attach(r, rec);
        self.enqueue_reaction(r);
        proof {
            assert(self.reaction_table() =~= old(self).reaction_table().insert(
                r.id_value(),
                ReactionRecord { is_scheduled: true, ..old(self).reaction(r) },
            ));
            if !old(self).pending().contains(r) {
                assert(self.pending()[self.pending().len() - 1] == r);
            }
        }
        if self.has_spy_listeners() {
            let name = self.reaction_name(r);
            let event = SpyEvent::ReactionScheduled { name, reaction_id: r.get() };
            let ghost before_emit = *self;
            emit_spy_event(self, host, &event);
            proof {
                crate::runtime::lemma_one_event(before_emit, event);
            }
        }
    }

    /// No reaction in the queue is live: each is unknown or disposed, so
    /// that a flush runs no effect.
    pub open(crate) spec fn no_live_pending(&self) -> bool {
        forall|i: int|
            0 <= i < self.pending().len() ==> !(self.has_reaction(#[trigger] self.pending()[i]) && !self.reaction(
                self.pending()[i],
            ).is_disposed)
    }

    /// What running the head `r` of the queue, from `before`, leads to: an
    /// unknown or disposed reaction is only dropped from the queue; one
    /// already running fails with `RecursiveReaction`; with the run ids used
    /// up it fails with `CounterOverflow`; otherwise it runs (see
    /// `reaction_run_closed`).
    pub open(crate) spec fn head_run(&self, before: &Self, r: ReactionId, res: Result<Option<ReactionId>, Fault>) -> bool {
        let live = before.has_reaction(r) && !before.reaction(r).is_disposed;
        &&& !live ==> res == Ok::<Option<ReactionId>, Fault>(Some(r)) && self.dequeued(before, Some(r))
        &&& live && before.reaction(r).is_running ==> (res matches Err(Fault::RecursiveReaction(name)) && name@
            == before.reaction_name_spec(r))
        &&& live && !before.reaction(r).is_running && before.run_id_spec() == u64::MAX ==> res == Err::<
            Option<ReactionId>,
            Fault,
        >(Fault::CounterOverflow)
        &&& live && !before.reaction(r).is_running && before.run_id_spec() < u64::MAX ==> res == Ok::<
            Option<ReactionId>,
            Fault,
        >(Some(r)) && self.reaction_run_closed(before, r)
    }

    /// One step of a flush: takes the reaction at the head of the queue and
    /// runs it (see `run_reaction`). Returns the reaction taken, or `None`
    /// when the queue is empty.
    pub fn run_next_pending_reaction<H: Host>(&mut self, host: &H) -> (res: Result<Option<ReactionId>, Fault>)
        ensures
            old(self).pending().len() == 0 ==> res == Ok::<Option<ReactionId>, Fault>(None) && *final(self)
                == *old(self),
            old(self).pending().len() > 0 ==> final(self).head_run(old(self), old(self).pending()[0], res),
            final(self).keeps_tracking(old(self)),
    {
        let next = self.next_pending_reaction();
        match next {
            Some(r) => {
                let ghost taken = *self;
                self.run_reaction(host, r)?;
                proof {
                    if !(old(self).has_reaction(r) && !old(self).reaction(r).is_disposed) {
                        assert(*self == taken);
                    }
                }
                Ok(Some(r))
            },
            None => Ok(None),
        }
    }

    /// Runs the queued reactions, oldest first, until the queue is empty;
    /// does nothing when a flush is already under way.
    pub fn run_pending_reactions<H: Host>(&mut self, host: &H) -> (res: Result<(), Fault>)
        ensures
            final(self).flushed_from(old(self), res),
    {
        self.run_pending_reactions_nested(host)
    }

    /// `self` and `res` are what a flush started on `before` leads to: with
    /// a flush under way, nothing; a successful flush leaves the queue empty
    /// and no flush running; with no live reaction queued, it succeeds and
    /// only empties the queue; otherwise the first step (see `head_run`)
    /// fails when the head is already running or the run ids are used up.
    pub open(crate) spec fn flushed_from(&self, before: &Self, res: Result<(), Fault>) -> bool {
        &&& before.running() ==> res is Ok && *self == *before
        &&& !before.running() && res is Ok ==> self.pending().len() == 0 && !self.running()
        &&& !before.running() && before.pending().len() == 0 ==> res is Ok && *self == *before
        &&& !before.running() && before.no_live_pending() ==> {
            &&& res is Ok
            &&& self.pending().len() == 0
            &&& !self.running()
            &&& self.same_scalars(before)
            &&& self.same_graph(before)
            &&& self.warnings() == before.warnings()
            &&& self.listeners() == before.listeners()
            &&& self.next_listener() == before.next_listener()
        }
        &&& !before.running() && before.pending().len() > 0 ==> {
            let r = before.pending()[0];
            let live = before.has_reaction(r) && !before.reaction(r).is_disposed;
            &&& live && before.reaction(r).is_running ==> (res matches Err(Fault::RecursiveReaction(name))
                && name@ == before.reaction_name_spec(r))
            &&& live && !before.reaction(r).is_running && before.run_id_spec() == u64::MAX ==> res == Err::<
                (),
                Fault,
            >(Fault::CounterOverflow)
        }
        &&& self.keeps_tracking(before)
    }

    pub(crate) fn run_pending_reactions_nested<H: Host>(&mut self, host: &H) -> (res: Result<(), Fault>)
        ensures
            final(self).flushed_from(old(self), res),
    {
        if self.is_running_reactions {
            return Ok(());
        }
        self.set_running_reactions(true);
        let ghost flagged = *self;
        let mut budget: u64 = u64::MAX;
        let ghost mut first = true;
        loop
            invariant
                !old(self).running(),
                flagged == old(self).with_running(true),
                old(self).pending().len() == 0 ==> *self == flagged,
                first ==> *self == flagged && budget == u64::MAX,
                !first && old(self).pending().len() > 0 ==> {
                    let r = old(self).pending()[0];
                    let live = old(self).has_reaction(r) && !old(self).reaction(r).is_disposed;
                    &&& !(live && old(self).reaction(r).is_running)
                    &&& !(live && !old(self).reaction(r).is_running && old(self).run_id_spec() == u64::MAX)
                },
                self.keeps_tracking(old(self)),
                old(self).no_live_pending() ==> {
                    &&& self.no_live_pending()
                    &&& self.running()
                    &&& self.same_scalars(&flagged)
                    &&& self.same_graph(&flagged)
                    &&& self.warnings() == flagged.warnings()
                    &&& self.listeners() == flagged.listeners()
                    &&& self.next_listener() == flagged.next_listener()
                },
            ensures
                self.pending().len() == 0,
                old(self).pending().len() == 0 ==> *self == flagged,
                old(self).no_live_pending() ==> {
                    &&& self.same_scalars(&flagged)
                    &&& self.same_graph(&flagged)
                    &&& self.warnings() == flagged.warnings()
                    &&& self.listeners() == flagged.listeners()
                    &&& self.next_listener() == flagged.next_listener()
                },
            decreases budget, self.pending().len(),
        {
            let head_live = if self.pending_reactions.len() > 0 {
                !self.is_reaction_disposed(self.pending_reactions[0])
            } else {
                false
            };
            if head_live && budget == 0 {
                proof {
                    assert(self.pending()[0] == self.pending_reactions@[0]);
                    assert(!self.no_live_pending());
                }
                return Err(Fault::DepthExhausted);
            }
            let ghost before_step = *self;
            let step = self.run_next_pending_reaction(host);
            match step {
                Ok(Some(_)) => {
                    proof {
                        if old(self).no_live_pending() {
                            let r = before_step.pending()[0];
                            assert(!(before_step.has_reaction(r) && !before_step.reaction(r).is_disposed));
                            assert forall|i: int| 0 <= i < self.pending().len() implies !(self.has_reaction(
                                #[trigger] self.pending()[i],
                            ) && !self.reaction(self.pending()[i]).is_disposed) by {
                                assert(self.pending()[i] == before_step.pending()[i + 1]);
                            }
                        }
                    }
                    if head_live {
                        budget = budget - 1;
                    }
                    proof {
                        first = false;
                    }
                },
                Ok(None) => {
                    break;
                },
                Err(fault) => {
                    return Err(fault);
                },
            }
        }
        self.set_running_reactions(false);
        Ok(())
    }

    /// `self` is what a run of reaction `r`, started on `before`, left,
    /// whatever its effect did: the tracking derivation and the read
    /// permission are those of `before`, the reaction is not running, its
    /// derivation is up to date as of the current run id (or no longer
    /// tracking, once disposed), and a reaction
    /// that must track an observable and observes none is disposed.
    pub open(crate) spec fn reaction_run_closed(&self, before: &Self, r: ReactionId) -> bool {
        let d = before.reaction(r).derivation;
        &&& self.tracking() == before.tracking()
        &&& self.allows_reads() == before.allows_reads()
        &&& self.has_reaction(r) ==> !self.reaction(r).is_running
        &&& self.has_derivation(d) ==> self.derivation(d).run_id == self.run_id_spec()
        &&& self.has_derivation(d) ==> (self.derivation(d).state == DerivationState::UpToDate
            || self.derivation(d).state == DerivationState::NotTracking)
        &&& self.has_reaction(r) && self.has_derivation(d) && self.derivation(d).requires_observable
            && self.derivation(d).observing@.len() == 0 ==> self.reaction(r).is_disposed
    }

    /// Everything but the reactions' table and the queue is as in `other`.
    pub open(crate) spec fn same_except_reactions_and_queue(&self, other: &Self) -> bool {
        &&& self.same_scalars(other)
        &&& self.tracking() == other.tracking()
        &&& self.observable_table() == other.observable_table()
        &&& self.derivation_table() == other.derivation_table()
        &&& self.issued_counts() == other.issued_counts()
        &&& self.warnings() == other.warnings()
        &&& self.listeners() == other.listeners()
        &&& self.next_listener() == other.next_listener()
    }

    /// Everything but the reactions' table is as in `other`.
    pub open(crate) spec fn same_except_reactions(&self, other: &Self) -> bool {
        &&& self.same_scalars(other)
        &&& self.tracking() == other.tracking()
        &&& self.observable_table() == other.observable_table()
        &&& self.derivation_table() == other.derivation_table()
        &&& self.issued_counts() == other.issued_counts()
        &&& self.pending() == other.pending()
        &&& self.warnings() == other.warnings()
        &&& self.listeners() == other.listeners()
        &&& self.next_listener() == other.next_listener()
    }


    /// Runs the reaction now, unless it is disposed: its effect runs as a
    /// tracked derivation, so that it comes to observe what it read. A
    /// reaction that must track an observable and tracked none is disposed.
    pub fn run_reaction<H: Host>(&mut self, host: &H, r: ReactionId) -> (res: Result<(), Fault>)
        ensures
            !old(self).has_reaction(r) || old(self).reaction(r).is_disposed ==> res is Ok && *final(self)
                == *old(self),
            old(self).has_reaction(r) && !old(self).reaction(r).is_disposed && old(self).reaction(r).is_running
                ==> (res matches Err(Fault::RecursiveReaction(name)) && name@ == old(self).reaction_name_spec(r)),
            old(self).has_reaction(r) && !old(self).reaction(r).is_disposed && !old(self).reaction(r).is_running
                && old(self).run_id_spec() == u64::MAX ==> res == Err::<(), Fault>(Fault::CounterOverflow),
            old(self).has_reaction(r) && !old(self).reaction(r).is_disposed && !old(self).reaction(r).is_running
                && old(self).run_id_spec() < u64::MAX ==> res is Ok && final(self).reaction_run_closed(old(self), r),
            final(self).keeps_tracking(old(self)),
    {
        let run = match self.begin_reaction_run(host, r)? {
            Some(run) => run,
            None => {
                return Ok(());
            },
        };
        host.run_reaction_effect(self, r);
        self.finish_reaction_run(host, r, run)
    }

    /// The first half of a run of the reaction, up to its effect: unless it
    /// is disposed, it is unscheduled, `ReactionRunStart` is reported, and
    /// (unless it is already running) it is marked running and its
    /// derivation starts a tracked run.
    pub fn begin_reaction_run<H: Host>(&mut self, host: &H, r: ReactionId) -> (res: Result<
        Option<ReactionRun>,
        Fault,
    >)
        ensures
            !old(self).has_reaction(r) || old(self).reaction(r).is_disposed ==> res == Ok::<
                Option<ReactionRun>,
                Fault,
            >(None) && *final(self) == *old(self),
            old(self).has_reaction(r) && !old(self).reaction(r).is_disposed ==> {
                let prior = old(self).reaction(r);
                &&& final(self).reported(
                    old(self),
                    old(self).listeners().len() > 0,
                    seq![(SpyKind::ReactionRunStart, old(self).reaction_name_spec(r))],
                )
                &&& prior.is_running ==> {
                    &&& res matches Err(Fault::RecursiveReaction(name)) && name@ == old(self).reaction_name_spec(r)
                    &&& final(self).reaction_table() == old(self).reaction_table().insert(
                        r.id_value(),
                        ReactionRecord { is_scheduled: false, ..prior },
                    )
                    &&& final(self).same_except_reactions(old(self))
                }
                &&& !prior.is_running && old(self).run_id_spec() == u64::MAX ==> {
                    &&& res == Err::<Option<ReactionRun>, Fault>(Fault::CounterOverflow)
                    &&& final(self).reaction_table() == old(self).reaction_table().insert(
                        r.id_value(),
                        ReactionRecord { is_scheduled: false, ..prior },
                    )
                    &&& final(self).same_except_reactions(old(self))
                }
                &&& !prior.is_running && old(self).run_id_spec() < u64::MAX ==> (res matches Ok(Some(run)) && {
                    &&& run.derivation() == prior.derivation
                    &&& run.reports() == (old(self).listeners().len() > 0)
                    &&& run.saved_reads() == old(self).allows_reads()
                    &&& run.saved_tracking() == old(self).tracking()
                    &&& final(self).reaction_table() == old(self).reaction_table().insert(
                        r.id_value(),
                        ReactionRecord { is_scheduled: false, is_running: true, ..prior },
                    )
                    &&& final(self).tracking_begun(old(self), prior.derivation)
                })
            },
    {
        let live = match self.reactions.get(r) {
            Some(rec) => !rec.is_disposed,
            None => false,
        };
        if !live {
            return Ok(None);
        }
        let mut rec = match self.reactions.take(r) {
            Some(rec) => rec,
            None => {
                return Ok(None);
            },
        };
        let ghost prior = rec;
        rec.is_scheduled = false;
        let d = rec.derivation;
        let running = rec.is_running;
        self.reactions.attach(r, rec);
        proof {
            assert(self.reaction_table() =~= old(self).reaction_table().insert(
                r.id_value(),
                ReactionRecord { is_scheduled: false, ..prior },
            ));
        }
        let emit_spy = self.has_spy_listeners();
        if emit_spy {
            let name = self.reaction_name(r);
            let event = SpyEvent::ReactionRunStart { name, reaction_id: r.get() };
            let ghost before_emit = *self;
            emit_spy_event(self, host, &event);
            proof {
                crate::runtime::lemma_one_event(before_emit, event);
            }
        }
        if running {
            return Err(Fault::RecursiveReaction(self.reaction_name(r)));
        }
        if self.run_id == u64::MAX {
            return Err(Fault::CounterOverflow);
        }
        let mut rec = match self.reactions.take(r) {
            Some(rec) => rec,
            None => {
                return Ok(None);
            },
        };
        rec.is_running = true;
        self.reactions.attach(r, rec);
        proof {
            assert(self.reaction_table() =~= old(self).reaction_table().insert(
                r.id_value(),
                ReactionRecord { is_scheduled: false, is_running: true, ..prior },
            ));
        }
        let ghost marked = *self;
        let frame = match self.begin_tracking(d) {
            Ok(frame) => frame,
            Err(fault) => {
                return Err(fault);
            },
        };
        proof {
            assert(self.tracking_begun(old(self), d)) by {
                assert(self.tracking_begun(&marked, d));
            }
        }
        Ok(Some(ReactionRun { derivation: d, frame, emit_spy }))
    }

    /// The second half of a run of the reaction, after its effect: tracking
    /// ends and the collected dependencies are bound; the derivation is up
    /// to date as of the current run; the reaction is no longer running; a
    /// reaction that must track an observable and tracked none is disposed;
    /// `ReactionRunEnd` is reported.
    pub fn finish_reaction_run<H: Host>(&mut self, host: &H, r: ReactionId, run: ReactionRun) -> (res: Result<
        (),
        Fault,
    >)
        ensures
            old(self).has_reaction(r) && old(self).reaction(r).derivation == run.derivation() && old(self).has_derivation(
                run.derivation(),
            ) && !old(self).derivation(run.derivation()).requires_observable ==> final(self).reported(
                old(self),
                run.reports(),
                seq![(SpyKind::ReactionRunEnd, old(self).reaction_name_spec(r))],
            ),
            res is Ok,
            final(self).tracking() == run.saved_tracking(),
            final(self).allows_reads() == run.saved_reads(),
            final(self).run_id_spec() == old(self).run_id_spec(),
            final(self).reaction_table().dom() == old(self).reaction_table().dom(),
            final(self).derivation_table().dom() == old(self).derivation_table().dom(),
            old(self).has_reaction(r) ==> !final(self).reaction(r).is_running,
            old(self).has_derivation(run.derivation()) ==> final(self).derivation(run.derivation()).run_id
                == final(self).run_id_spec(),
            old(self).has_derivation(run.derivation()) ==> (final(self).derivation(run.derivation()).state
                == DerivationState::UpToDate || final(self).derivation(run.derivation()).state
                == DerivationState::NotTracking),
            old(self).has_reaction(r) && old(self).has_derivation(run.derivation()) && final(self).derivation(
                run.derivation(),
            ).requires_observable && final(self).derivation(run.derivation()).observing@.len() == 0
                ==> final(self).reaction(r).is_disposed,
            old(self).has_reaction(r) && old(self).reaction(r).derivation == run.derivation() && old(self).has_derivation(run.derivation()) && old(self).binding_suspends_nothing(run.derivation()) ==> {
                let d = run.derivation();
                let prior_d = old(self).derivation(d);
                let prior_r = old(self).reaction(r);
                let new = dedup(prior_d.new_observing@);
                let prev = prior_d.observing@;
                let disposing = prior_d.requires_observable && new.len() == 0 && !prior_r.is_disposed;
                let after = final(self).derivation(d);
                &&& res is Ok
                &&& final(self).tracking() == run.saved_tracking()
                &&& final(self).allows_reads() == run.saved_reads()
                &&& final(self).run_id_spec() == old(self).run_id_spec()
                &&& final(self).batch_spec() == old(self).batch_spec()
                &&& final(self).allows_changes() == old(self).allows_changes()
                &&& final(self).policy() == old(self).policy()
                &&& final(self).running() == old(self).running()
                &&& final(self).issued_counts() == old(self).issued_counts()
                &&& final(self).pending() == old(self).pending()
                &&& final(self).warnings() == old(self).warnings()
                &&& final(self).listeners() == old(self).listeners()
                &&& final(self).next_listener() == old(self).next_listener()
                &&& final(self).reaction_table() == old(self).reaction_table().insert(
                    r.id_value(),
                    ReactionRecord {
                        is_running: false,
                        is_disposed: prior_r.is_disposed || disposing,
                        is_scheduled: if disposing {
                            false
                        } else {
                            prior_r.is_scheduled
                        },
                        ..prior_r
                    },
                )
                &&& final(self).derivation_table() == old(self).derivation_table().insert(d.id_value(), after)
                &&& after.observing@ == new
                &&& after.new_observing@ == if disposing {
                    Seq::<ObservableId>::empty()
                } else {
                    prev
                }
                &&& after.state == if disposing {
                    DerivationState::NotTracking
                } else {
                    DerivationState::UpToDate
                }
                &&& after.run_id == old(self).run_id_spec()
                &&& after.unbound_deps_count == new.len()
                &&& after.name == prior_d.name
                &&& after.kind == prior_d.kind
                &&& after.requires_observable == prior_d.requires_observable
                &&& after.keep_alive == prior_d.keep_alive
                &&& after.is_computing == prior_d.is_computing
                &&& final(self).observable_table().dom() == old(self).observable_table().dom()
                &&& forall|o: ObservableId| #[trigger] old(self).has_observable(o) ==> if new.contains(o) {
                    observer_attached(old(self).observable(o), final(self).observable(o), d)
                } else if prev.contains(o) {
                    observer_removed(old(self).observable(o), final(self).observable(o), d)
                } else {
                    final(self).observable(o) == old(self).observable(o)
                }
            },
    {
        let ReactionRun { derivation: d, frame, emit_spy } = run;
        let ghost start = *self;
        let ended_tracking = self.end_tracking(host, d, frame);
        proof {
            assert(ended_tracking is Ok);
        }
        let ghost ended = *self;
        self.set_derivation_state(d, DerivationState::UpToDate);
        let run_id = self.current_run_id();
        if let Some(mut drec) = self.derivations.take(d) {
            drec.run_id = run_id;
            self.derivations.attach(d, drec);
        }
        if let Some(mut rec) = self.reactions.take(r) {
            rec.is_running = false;
            self.reactions.attach(r, rec);
        }
        let ghost stamped = *self;
        let requires_observable = match self.derivations.get(d) {
            Some(rec) => rec.requires_observable && rec.observing.len() == 0,
            None => false,
        };
        proof {
            if start.has_reaction(r) && start.reaction(r).derivation == d && start.has_derivation(d)
                && start.binding_suspends_nothing(d) {
                assert(stamped.derivation_table() =~= start.derivation_table().insert(
                    d.id_value(),
                    stamped.derivation(d),
                ));
                assert(stamped.reaction_table() =~= start.reaction_table().insert(
                    r.id_value(),
                    ReactionRecord { is_running: false, ..start.reaction(r) },
                ));
                assert(stamped.derivation(d).observing@ == dedup(start.derivation(d).new_observing@));
                if requires_observable {
                    assert(stamped.derivation(d).observing@ =~= Seq::<ObservableId>::empty());
                    assert(stamped.has_derivation(stamped.reaction(r).derivation));
                    assert(stamped.release_suspends_nothing(d));
                }
            }
        }
        if requires_observable {
            let disposed = self.dispose_reaction(host, r);
            proof {
                assert(disposed is Ok);
            }
        }
        if emit_spy {
            let name = self.reaction_name(r);
            proof {
                if start.has_reaction(r) && start.reaction(r).derivation == d && start.has_derivation(d)
                    && !start.derivation(d).requires_observable {
                    assert(ended.derivation_table().dom() == start.derivation_table().dom());
                    assert(ended.derivation(d).name == start.derivation(d).name);
                    assert(self.reaction(r).derivation == d);
                    assert(self.derivation(d).name == start.derivation(d).name);
                    assert(self.reaction_name_spec(r) == start.reaction_name_spec(r));
                    assert(self.spy_log() == start.spy_log());
                }
            }
            let event = SpyEvent::ReactionRunEnd { name, reaction_id: r.get() };
            let ghost before_emit = *self;
            emit_spy_event(self, host, &event);
            proof {
                crate::runtime::lemma_one_event(before_emit, event);
            }
        }
        proof {
            if start.has_reaction(r) && start.reaction(r).derivation == d && start.has_derivation(d)
                && start.binding_suspends_nothing(d) {
                let prior_r = start.reaction(r);
                let new = dedup(start.derivation(d).new_observing@);
                let disposing = start.derivation(d).requires_observable && new.len() == 0 && !prior_r.is_disposed;
                assert(requires_observable == (start.derivation(d).requires_observable && new.len() == 0));
                assert(self.reaction_table() =~= start.reaction_table().insert(
                    r.id_value(),
                    ReactionRecord {
                        is_running: false,
                        is_disposed: prior_r.is_disposed || disposing,
                        is_scheduled: if disposing {
                            false
                        } else {
                            prior_r.is_scheduled
                        },
                        ..prior_r
                    },
                ));
                assert(self.derivation_table() =~= start.derivation_table().insert(d.id_value(), self.derivation(d)));
                assert forall|o: ObservableId| #[trigger] start.has_observable(o) implies if new.contains(o) {
                    observer_attached(start.observable(o), self.observable(o), d)
                } else if start.derivation(d).observing@.contains(o) {
                    observer_removed(start.observable(o), self.observable(o), d)
                } else {
                    self.observable(o) == start.observable(o)
                } by {
                    assert(ended.has_observable(o));
                    assert(stamped.observable(o) == ended.observable(o));
                    if disposing {
                        assert(stamped.has_observable(o));
                        assert(!stamped.derivation(d).observing@.contains(o));
                    }
                }
            }
        }
        Ok(())
    }


    /// Disposes the reaction, once: it is no longer scheduled, it stops
    /// observing its dependencies, and it never runs again.
    pub fn dispose_reaction<H: Host>(&mut self, host: &H, r: ReactionId) -> (res: Result<(), Fault>)
        ensures
            old(self).has_reaction(r) && !old(self).reaction(r).is_disposed && old(self).has_derivation(
                old(self).reaction(r).derivation,
            ) && old(self).unpublished(old(self).reaction(r).derivation) ==> forall|o: ObservableId| #[trigger]
                old(self).derivation(old(self).reaction(r).derivation).observing@.contains(o) && old(self).has_observable(o)
                    && old(self).observers_of(o).no_duplicates() ==> !final(self).observers_of(o).contains(
                    old(self).reaction(r).derivation,
                ),
            final(self).reported(
                old(self),
                old(self).has_reaction(r) && !old(self).reaction(r).is_disposed && old(self).listeners().len() > 0,
                seq![(SpyKind::ReactionDisposed, old(self).reaction_name_spec(r))],
            ),
            res is Ok,
            final(self).reaction_table() == if old(self).has_reaction(r) && !old(self).reaction(r).is_disposed {
                old(self).reaction_table().insert(
                    r.id_value(),
                    ReactionRecord { is_disposed: true, is_scheduled: false, ..old(self).reaction(r) },
                )
            } else {
                old(self).reaction_table()
            },
            final(self).tracking() == old(self).tracking(),
            final(self).same_scalars(old(self)),
            final(self).marks_kept(old(self)),
            final(self).derivation_table().dom() == old(self).derivation_table().dom(),
            !old(self).has_reaction(r) || old(self).reaction(r).is_disposed ==> *final(self) == *old(self),
            old(self).has_reaction(r) && !old(self).reaction(r).is_disposed && old(self).disposal_suspends_nothing(r)
                ==> final(self).disposed_from(old(self), r),
            old(self).has_reaction(r) && !old(self).reaction(r).is_disposed && final(self).has_derivation(
                old(self).reaction(r).derivation,
            ) ==> {
                let a = final(self).derivation(old(self).reaction(r).derivation);
                &&& a.observing@ == Seq::<ObservableId>::empty()
                &&& a.new_observing@ == Seq::<ObservableId>::empty()
                &&& a.state == DerivationState::NotTracking
            },
    {
        let live = match self.reactions.get(r) {
            Some(rec) => !rec.is_disposed,
            None => false,
        };
        if !live {
            return Ok(());
        }
        let mut rec = match self.reactions.take(r) {
            Some(rec) => rec,
            None => {
                return Ok(());
            },
        };
        let ghost prior = rec;
        rec.is_disposed = true;
        rec.is_scheduled = false;
        let d = rec.derivation;
        self.reactions.attach(r, rec);
        let ghost marked = *self;
        if let Some(mut drec) = self.derivations.take(d) {
            drec.state = DerivationState::NotTracking;
            drec.new_observing = Vec::new();
            self.derivations.attach(d, drec);
        } else {
            proof {
                assert(self.derivation_table() =~= old(self).derivation_table());
            }
        }
        let ghost cleared = *self;
        proof {
            if old(self).has_derivation(d) {
                assert(dedup(cleared.derivation(d).new_observing@) =~= Seq::<ObservableId>::empty());
                assert(cleared.derivation(d).observing == old(self).derivation(d).observing);
                if old(self).release_suspends_nothing(d) {
                    assert forall|o: ObservableId|
                        #[trigger] cleared.derivation(d).observing@.contains(o) && !dedup(
                            cleared.derivation(d).new_observing@,
                        ).contains(o) implies cleared.unobserving_suspends_nothing(o, d) by {
                        assert(old(self).derivation(d).observing@.contains(o));
                        assert(old(self).unobserving_suspends_nothing(o, d));
                        if cleared.has_observable(o) {
                            assert(cleared.observable(o) == old(self).observable(o));
                        }
                    }
                    assert(cleared.binding_suspends_nothing(d));
                }
            }
        }
        let unbound = self.bind_dependencies(host, d);
        proof {
            assert(unbound is Ok);
        }
        let ghost bound = *self;
        proof {
            if old(self).has_derivation(d) && old(self).unpublished(d) {
                assert(cleared.unpublished(d)) by {
                    assert(cleared.observable_table() == old(self).observable_table());
                    assert forall|o: ObservableId| #[trigger]
                        cleared.has_observable(o) && cleared.observable(o).kind is Computed implies cleared.observable(o).kind->Computed_0
                        != d by {
                        assert(old(self).has_observable(o));
                    }
                }
                assert(bound.binding_law(&cleared, d));
                assert(dedup(cleared.derivation(d).new_observing@) =~= Seq::<ObservableId>::empty());
                assert forall|o: ObservableId| #[trigger]
                    old(self).derivation(d).observing@.contains(o) && old(self).has_observable(o)
                        && old(self).observers_of(o).no_duplicates() implies !bound.observers_of(o).contains(d) by {
                    assert(cleared.derivation(d).observing@.contains(o));
                    assert(cleared.has_observable(o));
                    assert(cleared.observers_of(o) == old(self).observers_of(o));
                }
            }
        }
        if let Some(mut drec) = self.derivations.take(d) {
            drec.observing = Vec::new();
            drec.new_observing = Vec::new();
            self.derivations.attach(d, drec);
        } else {
            proof {
                assert(self.derivation_table() =~= bound.derivation_table());
            }
        }
        if self.has_spy_listeners() {
            let name = self.reaction_name(r);
            let event = SpyEvent::ReactionDisposed { name, reaction_id: r.get() };
            let ghost before_emit = *self;
            emit_spy_event(self, host, &event);
            proof {
                crate::runtime::lemma_one_event(before_emit, event);
            }
        }
        proof {
            assert(self.reaction_table() =~= old(self).reaction_table().insert(
                r.id_value(),
                ReactionRecord { is_disposed: true, is_scheduled: false, ..prior },
            ));
            if old(self).has_derivation(d) && old(self).release_suspends_nothing(d) {
                assert(self.derivation_table() =~= old(self).derivation_table().insert(
                    d.id_value(),
                    self.derivation(d),
                ));
                let prev = old(self).derivation(d).observing@;
                assert forall|o: ObservableId| #[trigger] old(self).has_observable(o) implies if prev.contains(o) {
                    observer_removed(old(self).observable(o), self.observable(o), d)
                } else {
                    self.observable(o) == old(self).observable(o)
                } by {
                    assert(cleared.has_observable(o));
                }
            }
        }
        Ok(())
    }

    /// Whether the reaction was disposed (an unknown reaction counts as
    /// disposed).
    pub fn is_reaction_disposed(&self, r: ReactionId) -> (res: bool)
        ensures
            self.has_reaction(r) ==> res == self.reaction(r).is_disposed,
            !self.has_reaction(r) ==> res,
    {
        match self.reactions.get(r) {
            Some(rec) => rec.is_disposed,
            None => true,
        }
    }
}

} // verus!

verus! {

impl ReactionHandle {
    /// The reaction the handle refers to.
    pub closed spec fn reaction(&self) -> ReactionId {
        self.id
    }

    /// The reaction the handle refers to.
    pub fn id(&self) -> (r: ReactionId)
        ensures
            r == self.reaction(),
    {
        self.id
    }

    /// Schedules the reaction to run on the next flush cycle (see
    /// `MobxRuntime::schedule_reaction`).
    pub fn schedule<H: Host>(&self, rt: &mut MobxRuntime, host: &H) -> (res: Result<(), Fault>)
        ensures
            final(rt).scheduled_from(old(rt), self.reaction(), res),
    {
        rt.schedule_reaction(host, self.id)
    }

    /// Runs the reaction immediately, bypassing the queue (see
    /// `MobxRuntime::run_reaction`).
    pub fn run_now<H: Host>(&self, rt: &mut MobxRuntime, host: &H) -> (res: Result<(), Fault>)
        ensures
            !old(rt).has_reaction(self.reaction()) || old(rt).reaction(self.reaction()).is_disposed ==> res is Ok
                && *final(rt) == *old(rt),
            old(rt).has_reaction(self.reaction()) && !old(rt).reaction(self.reaction()).is_disposed && old(rt).reaction(self.reaction()).is_running ==> (res matches Err(Fault::RecursiveReaction(name)) && name@
                == old(rt).reaction_name_spec(self.reaction())),
            old(rt).has_reaction(self.reaction()) && !old(rt).reaction(self.reaction()).is_disposed
                && !old(rt).reaction(self.reaction()).is_running && old(rt).run_id_spec() == u64::MAX
                ==> res == Err::<(), Fault>(Fault::CounterOverflow),
            old(rt).has_reaction(self.reaction()) && !old(rt).reaction(self.reaction()).is_disposed
                && !old(rt).reaction(self.reaction()).is_running && old(rt).run_id_spec() < u64::MAX ==> res is Ok
                && final(rt).reaction_run_closed(old(rt), self.reaction()),
    {
        rt.run_reaction(host, self.id)
    }

    /// Disposes the reaction, clearing its tracked dependencies (see
    /// `MobxRuntime::dispose_reaction`).
    pub fn dispose<H: Host>(&self, rt: &mut MobxRuntime, host: &H) -> (res: Result<(), Fault>)
        ensures
            old(rt).has_reaction(self.reaction()) && !old(rt).reaction(self.reaction()).is_disposed && old(rt).has_derivation(
                old(rt).reaction(self.reaction()).derivation,
            ) && old(rt).unpublished(old(rt).reaction(self.reaction()).derivation) ==> forall|o: ObservableId| #[trigger]
                old(rt).derivation(old(rt).reaction(self.reaction()).derivation).observing@.contains(o) && old(rt).has_observable(o)
                    && old(rt).observers_of(o).no_duplicates() ==> !final(rt).observers_of(o).contains(
                    old(rt).reaction(self.reaction()).derivation,
                ),
            final(rt).reported(
                old(rt),
                old(rt).has_reaction(self.reaction()) && !old(rt).reaction(self.reaction()).is_disposed && old(rt).listeners().len() > 0,
                seq![(SpyKind::ReactionDisposed, old(rt).reaction_name_spec(self.reaction()))],
            ),
            !old(rt).has_reaction(self.reaction()) || old(rt).reaction(self.reaction()).is_disposed ==> res is Ok
                && *final(rt) == *old(rt),
            old(rt).has_reaction(self.reaction()) && !old(rt).reaction(self.reaction()).is_disposed && old(rt).disposal_suspends_nothing(self.reaction()) ==> res is Ok && final(rt).disposed_from(
                old(rt),
                self.reaction(),
            ),
            old(rt).has_reaction(self.reaction()) && !old(rt).reaction(self.reaction()).is_disposed && final(rt).has_derivation(
                old(rt).reaction(self.reaction()).derivation,
            ) ==> {
                let a = final(rt).derivation(old(rt).reaction(self.reaction()).derivation);
                &&& a.observing@ == Seq::<ObservableId>::empty()
                &&& a.new_observing@ == Seq::<ObservableId>::empty()
                &&& a.state == DerivationState::NotTracking
            },
            final(rt).reaction_table() == if old(rt).has_reaction(self.reaction()) && !old(rt).reaction(self.reaction()).is_disposed {
                old(rt).reaction_table().insert(
                    self.reaction().id_value(),
                    ReactionRecord { is_disposed: true, is_scheduled: false, ..old(rt).reaction(self.reaction()) },
                )
            } else {
                old(rt).reaction_table()
            },
    {
        rt.dispose_reaction(host, self.id)
    }

    /// Whether the reaction was disposed (an unknown one counts as disposed).
    pub fn is_disposed(&self, rt: &MobxRuntime) -> (r: bool)
        ensures
            rt.has_reaction(self.reaction()) ==> r == rt.reaction(self.reaction()).is_disposed,
            !rt.has_reaction(self.reaction()) ==> r,
    {
        rt.is_reaction_disposed(self.id)
    }
}

/// Creates a reaction from the options without running it; the host keeps
/// its effect.
pub fn create_reaction<H: Host>(rt: &mut MobxRuntime, host: &H, options: ReactionOptions<H::Effect>) -> (r:
    Result<ReactionHandle, Fault>)
    ensures
        old(rt).issued_counts().1 == u64::MAX || old(rt).issued_counts().2 == u64::MAX ==> r is Err && *final(rt)
            == *old(rt),
        old(rt).issued_counts().1 < u64::MAX && old(rt).issued_counts().2 < u64::MAX ==> (r matches Ok(h) && {
            let id = h.reaction();
            let rec = final(rt).reaction(id);
            let drec = final(rt).derivation(rec.derivation);
            &&& id.id_value() == old(rt).issued_counts().2 + 1
            &&& rec.derivation.id_value() == old(rt).issued_counts().1 + 1
            &&& final(rt).issued_counts() == (old(rt).issued_counts().0, rec.derivation.id_value(), id.id_value())
            &&& final(rt).reaction_table() == old(rt).reaction_table().insert(id.id_value(), rec)
            &&& !rec.is_scheduled && !rec.is_running && !rec.is_disposed
            &&& final(rt).derivation_table() == old(rt).derivation_table().insert(
                rec.derivation.id_value(),
                drec,
            )
            &&& drec.name@ == reaction_name_for(options.name, id)
            &&& drec.kind == DerivationKind::Reaction(id)
            &&& drec.observing@ == Seq::<ObservableId>::empty()
            &&& drec.state == DerivationState::NotTracking
            &&& drec.requires_observable == options.requires_observable
        }),
        final(rt).observable_table() == old(rt).observable_table(),
        final(rt).same_scalars(old(rt)),
        final(rt).pending() == old(rt).pending(),
        final(rt).warnings() == old(rt).warnings(),
        final(rt).tracking() == old(rt).tracking(),
{
    let ReactionOptions { name, effect, requires_observable } = options;
    let id = rt.create_reaction(name, requires_observable)?;
    host.adopt_reaction_effect(id, effect);
    Ok(ReactionHandle { id })
}

/// Creates a reaction that runs immediately and reruns when its dependencies
/// change.
pub fn autorun<H: Host>(rt: &mut MobxRuntime, host: &H, effect: H::Effect) -> (r: Result<ReactionHandle, Fault>)
    ensures
        old(rt).issued_counts().1 == u64::MAX || old(rt).issued_counts().2 == u64::MAX ==> r is Err && *final(rt)
            == *old(rt),
        old(rt).issued_counts().1 < u64::MAX && old(rt).issued_counts().2 < u64::MAX && old(rt).run_id_spec()
            == u64::MAX ==> r == Err::<ReactionHandle, Fault>(Fault::CounterOverflow),
        old(rt).issued_counts().1 < u64::MAX && old(rt).issued_counts().2 < u64::MAX && old(rt).run_id_spec()
            < u64::MAX ==> (r matches Ok(h) && {
            let d = (old(rt).issued_counts().1 + 1) as u64;
            &&& h.reaction().id_value() == old(rt).issued_counts().2 + 1
            &&& final(rt).tracking() == old(rt).tracking()
            &&& final(rt).allows_reads() == old(rt).allows_reads()
            &&& final(rt).has_reaction(h.reaction()) ==> !final(rt).reaction(h.reaction()).is_running
            &&& final(rt).derivation_table().contains_key(d) ==> final(rt).derivation_table()[d].run_id
                == final(rt).run_id_spec()
            &&& final(rt).derivation_table().contains_key(d) ==> (final(rt).derivation_table()[d].state
                == DerivationState::UpToDate || final(rt).derivation_table()[d].state == DerivationState::NotTracking)
        }),
        r matches Ok(h) ==> h.reaction().id_value() == old(rt).issued_counts().2 + 1,
{
    let handle = create_reaction(rt, host, ReactionOptions::new(effect))?;
    proof {
        assert(rt.has_reaction(handle.reaction()));
        assert(rt.reaction(handle.reaction()).derivation.id_value() == old(rt).issued_counts().1 + 1);
    }
    let ghost created = *rt;
    rt.run_reaction(host, handle.id)?;
    proof {
        assert(rt.reaction_run_closed(&created, handle.reaction()));
        let d = created.reaction(handle.reaction()).derivation;
        assert(d.id_value() == old(rt).issued_counts().1 + 1);
    }
    Ok(handle)
}

/// Flushes all pending reactions in FIFO order; does nothing when a flush is
/// already under way.
pub fn run_pending_reactions<H: Host>(rt: &mut MobxRuntime, host: &H) -> (r: Result<(), Fault>)
    ensures
        final(rt).flushed_from(old(rt), r),
{
    rt.run_pending_reactions(host)
}

/// Requests that pending reactions be processed, now and on this thread.
pub fn schedule_reaction_flush<H: Host>(rt: &mut MobxRuntime, host: &H) -> (r: Result<(), Fault>)
    ensures
        final(rt).flushed_from(old(rt), r),
{
    rt.run_pending_reactions(host)
}

/// A disposed reaction stays put: it is disposed and unscheduled, so that a
/// later schedule or run finds it disposed and changes nothing, and its
/// derivation observes nothing.
pub proof fn law_disposed_reaction_is_inert(a: MobxRuntime, b: MobxRuntime, r: ReactionId)
    requires
        a.has_reaction(r),
        b.disposed_from(&a, r),
    ensures
        b.has_reaction(r),
        b.reaction(r).is_disposed,
        !b.reaction(r).is_scheduled,
        b.reaction(r).derivation == a.reaction(r).derivation,
        a.has_derivation(a.reaction(r).derivation) ==> b.derivation(a.reaction(r).derivation).observing@
            == Seq::<ObservableId>::empty(),
{
}

} // verus!

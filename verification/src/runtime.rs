//! The runtime state: batching, state read/write policies, strict-mode
//! warnings, the pending reaction queue, spy listener registration, and the
//! tables of observables, derivations and reactions.
use crate::derivation::{DerivationRecord, DerivationState};
use crate::ids::{DerivationId, ObservableId, ReactionId};
use crate::observable::ObservableRecord;
use crate::reaction::ReactionRecord;
use crate::registry::IdRegistry;
use crate::spy::{event_view, SpyEvent, SpyKind};
use vstd::prelude::*;

verus! {

/// The strict-mode policy: when must state changes happen inside an action.
#[derive(Clone, Copy, Debug, PartialEq, Eq, Structural)]
pub enum EnforcePolicy {
    Never,
    Observed,
    Always,
}

impl EnforcePolicy {
    /// The policy a new runtime starts with: `Never`.
    pub fn initial() -> (p: Self)
        ensures
            p == EnforcePolicy::Never,
    {
        EnforcePolicy::Never
    }
}

/// A condition under which the runtime gives up an operation. Each one marks a
/// broken usage contract or an exhausted counter.
#[derive(Debug, PartialEq, Eq)]
pub enum Fault {
    /// A reaction was asked to run while it was already running.
    RecursiveReaction(String),
    /// A computed value was asked to compute while it was already computing.
    RecursiveComputation(String),
    /// A batch was ended that was never started.
    BatchUnderflow,
    /// An identifier or run counter reached `u64::MAX`.
    CounterOverflow,
    /// Propagation or flushing went deeper than the runtime's bound.
    DepthExhausted,
}

/// One step an operation of the runtime took itself (see
/// `MobxRuntime::trace`).
pub enum Step {
    /// A strict-mode warning was recorded for a change of the observable.
    Warned(ObservableId),
    /// The derivation was marked as an observer of a changed value: its
    /// state before the marking and right after it, before any reaction the
    /// marking scheduled could run (`None` when it has no record); and, for
    /// the derivation of a live reaction, whether that reaction was then
    /// scheduled (`None` for any other derivation).
    Marked(DerivationId, Option<DerivationState>, Option<DerivationState>, Option<bool>),
    /// A read of the observable was handed to the tracking derivation (if
    /// any) to collect.
    Collected(Option<DerivationId>, ObservableId),
}

/// The state marking leaves a derivation in: one that is up to date or
/// possibly stale becomes stale; any other stays as it was.
pub open spec fn marked_state(s: Option<DerivationState>) -> Option<DerivationState> {
    match s {
        Some(state) => if state.is_fresh() {
            Some(DerivationState::Stale)
        } else {
            s
        },
        None => None,
    }
}

/// The whole state of one reactive runtime.
pub struct MobxRuntime {
    pub(crate) run_id: u64,
    pub(crate) in_batch: usize,
    pub(crate) allow_state_changes: bool,
    pub(crate) allow_state_reads: bool,
    pub(crate) enforce_actions: EnforcePolicy,
    pub(crate) pending_reactions: Vec<ReactionId>,
    pub(crate) is_running_reactions: bool,
    pub(crate) strict_mode_warnings: Vec<String>,
    pub(crate) spy_listeners: Vec<u64>,
    pub(crate) next_spy_listener_id: u64,
    pub(crate) tracking_derivation: Option<DerivationId>,
    pub(crate) observables: IdRegistry<ObservableId, ObservableRecord>,
    pub(crate) derivations: IdRegistry<DerivationId, DerivationRecord>,
    pub(crate) reactions: IdRegistry<ReactionId, ReactionRecord>,
    pub(crate) spy_log: Ghost<Seq<(Seq<u64>, SpyEvent)>>,
    pub(crate) trace: Ghost<Seq<Step>>,
}

/// The message recorded for a strict-mode violation.
pub open spec fn strict_mode_message(label: Seq<char>, name: Seq<char>) -> Seq<char> {
    "strict mode ("@ + label + ") violation: observable `"@ + name
        + "` was modified outside an action"@
}

/// The label a policy carries in strict-mode messages.
pub open spec fn policy_label(policy: EnforcePolicy) -> Seq<char> {
    match policy {
        EnforcePolicy::Always => "always"@,
        _ => "observed"@,
    }
}

/// Whether a state change is allowed under the given flags.
pub open spec fn change_allowed(allow: bool, policy: EnforcePolicy, is_observed: bool) -> bool {
    allow || match policy {
        EnforcePolicy::Never => true,
        EnforcePolicy::Observed => !is_observed,
        EnforcePolicy::Always => false,
    }
}

impl MobxRuntime {
    pub open(crate) spec fn run_id_spec(&self) -> u64 {
        self.run_id
    }

    pub open(crate) spec fn batch_spec(&self) -> usize {
        self.in_batch
    }

    pub open(crate) spec fn allows_changes(&self) -> bool {
        self.allow_state_changes
    }

    pub open(crate) spec fn allows_reads(&self) -> bool {
        self.allow_state_reads
    }

    pub open(crate) spec fn policy(&self) -> EnforcePolicy {
        self.enforce_actions
    }

    pub open(crate) spec fn pending(&self) -> Seq<ReactionId> {
        self.pending_reactions@
    }

    pub open(crate) spec fn running(&self) -> bool {
        self.is_running_reactions
    }

    pub open(crate) spec fn warnings(&self) -> Seq<Seq<char>> {
        self.strict_mode_warnings@.map_values(|s: String| s@)
    }

    pub open(crate) spec fn listeners(&self) -> Seq<u64> {
        self.spy_listeners@
    }

    pub open(crate) spec fn next_listener(&self) -> u64 {
        self.next_spy_listener_id
    }

    pub open(crate) spec fn tracking(&self) -> Option<DerivationId> {
        self.tracking_derivation
    }

    pub open(crate) spec fn observable_table(&self) -> Map<u64, ObservableRecord> {
        self.observables.entries()
    }

    pub open(crate) spec fn derivation_table(&self) -> Map<u64, DerivationRecord> {
        self.derivations.entries()
    }

    pub open(crate) spec fn reaction_table(&self) -> Map<u64, ReactionRecord> {
        self.reactions.entries()
    }

    /// The last identifiers issued for observables, derivations and reactions.
    pub open(crate) spec fn issued_counts(&self) -> (u64, u64, u64) {
        (self.observables.last_issued(), self.derivations.last_issued(), self.reactions.last_issued())
    }

    /// The spy events handed out so far, oldest first, each with the
    /// listeners it was handed to, in the order they received it.
    pub open(crate) spec fn spy_log(&self) -> Seq<(Seq<u64>, SpyEvent)> {
        self.spy_log@
    }

    /// The steps the runtime's operations took themselves, oldest first.
    /// An operation keeps its own steps only: the steps of what it runs in
    /// turn are dropped once that is done, be it user code (a reaction's
    /// effect, a computed value's getter), the computation a read of a
    /// computed value starts, or what marking one derivation leads to (the
    /// reactions it runs, the observers of a computed value it reaches).
    pub open(crate) spec fn trace(&self) -> Seq<Step> {
        self.trace@
    }

    /// The derivation's state, `None` when it has no record.
    pub open(crate) spec fn state_of(&self, d: DerivationId) -> Option<DerivationState> {
        if self.has_derivation(d) {
            Some(self.derivation(d).state)
        } else {
            None
        }
    }

    /// When `emits`, the log of `self` is the log of `before` followed by
    /// `events` (by kind and name), each handed to the listeners of
    /// `before`; otherwise the log is unchanged.
    pub open(crate) spec fn reported(&self, before: &Self, emits: bool, events: Seq<(SpyKind, Seq<char>)>) -> bool {
        if emits {
            &&& self.spy_log().len() == before.spy_log().len() + events.len()
            &&& self.spy_log().take(before.spy_log().len() as int) == before.spy_log()
            &&& forall|i: int|
                0 <= i < events.len() ==> {
                    let entry = #[trigger] self.spy_log()[before.spy_log().len() + i];
                    &&& entry.0 == before.listeners()
                    &&& event_view(entry.1) == events[i]
                }
        } else {
            self.spy_log() == before.spy_log()
        }
    }

    /// Like `reported`, but later events may follow those listed.
    pub open(crate) spec fn reported_first(&self, before: &Self, emits: bool, events: Seq<(SpyKind, Seq<char>)>) -> bool {
        &&& self.spy_log().len() >= before.spy_log().len() + if emits {
            events.len() as int
        } else {
            0
        }
        &&& self.spy_log().take(before.spy_log().len() as int) == before.spy_log()
        &&& emits ==> forall|i: int|
            0 <= i < events.len() ==> {
                let entry = #[trigger] self.spy_log()[before.spy_log().len() + i];
                &&& entry.0 == before.listeners()
                &&& event_view(entry.1) == events[i]
            }
    }

    /// `self` is `before` but for the spy log.
    pub open(crate) spec fn same_but_log(&self, before: &Self) -> bool {
        *self == (MobxRuntime { spy_log: self.spy_log, ..*before })
    }

    /// The runtime after handing `event` to its listeners: the event is
    /// logged with them; nothing else changes.
    pub open(crate) spec fn with_event(&self, event: SpyEvent) -> MobxRuntime {
        MobxRuntime { spy_log: Ghost(self.spy_log@.push((self.listeners(), event))), ..*self }
    }

    /// The tracking derivation and the read permission are those of
    /// `before`.
    pub open(crate) spec fn keeps_tracking(&self, before: &Self) -> bool {
        &&& self.tracking() == before.tracking()
        &&& self.allows_reads() == before.allows_reads()
    }

    /// The runtime with its flush flag set to `running`.
    pub open(crate) spec fn with_running(&self, running: bool) -> MobxRuntime {
        MobxRuntime { is_running_reactions: running, ..*self }
    }

    /// The scalar flags and counters are unchanged.
    pub open(crate) spec fn same_scalars(&self, other: &Self) -> bool {
        &&& self.run_id == other.run_id
        &&& self.in_batch == other.in_batch
        &&& self.allow_state_changes == other.allow_state_changes
        &&& self.allow_state_reads == other.allow_state_reads
        &&& self.enforce_actions == other.enforce_actions
        &&& self.is_running_reactions == other.is_running_reactions
    }

    /// The tables of observables, derivations and reactions are unchanged.
    pub open(crate) spec fn same_graph(&self, other: &Self) -> bool {
        &&& self.observable_table() == other.observable_table()
        &&& self.derivation_table() == other.derivation_table()
        &&& self.reaction_table() == other.reaction_table()
        &&& self.issued_counts() == other.issued_counts()
    }

    /// Everything but the scalar flags and counters is unchanged.
    pub open(crate) spec fn same_tables(&self, other: &Self) -> bool {
        &&& self.same_tables_but_log(other)
        &&& self.spy_log() == other.spy_log()
    }

    /// Everything but the scalar flags, counters and the spy log is
    /// unchanged.
    pub open(crate) spec fn same_tables_but_log(&self, other: &Self) -> bool {
        &&& self.pending_reactions@ == other.pending_reactions@
        &&& self.strict_mode_warnings@ == other.strict_mode_warnings@
        &&& self.spy_listeners@ == other.spy_listeners@
        &&& self.next_spy_listener_id == other.next_spy_listener_id
        &&& self.tracking_derivation == other.tracking_derivation
        &&& self.observable_table() == other.observable_table()
        &&& self.derivation_table() == other.derivation_table()
        &&& self.reaction_table() == other.reaction_table()
        &&& self.issued_counts() == other.issued_counts()
    }

    /// Nothing but the tables of observables and derivations changed: flags,
    /// counters, the tracking derivation, the reactions, the queue, the
    /// warnings and the spy listeners are as in `other`.
    pub open(crate) spec fn same_context(&self, other: &Self) -> bool {
        &&& self.same_scalars(other)
        &&& self.tracking_derivation == other.tracking_derivation
        &&& self.reaction_table() == other.reaction_table()
        &&& self.issued_counts() == other.issued_counts()
        &&& self.pending_reactions@ == other.pending_reactions@
        &&& self.warnings() == other.warnings()
        &&& self.spy_listeners@ == other.spy_listeners@
        &&& self.next_spy_listener_id == other.next_spy_listener_id
    }

    /// `self` follows `before` by entering a batch: the depth grows by one,
    /// saturating at `usize::MAX`; nothing else changes.
    pub open(crate) spec fn entered_batch(&self, before: &Self) -> bool {
        &&& self.in_batch == if before.in_batch == usize::MAX {
            usize::MAX
        } else {
            (before.in_batch + 1) as usize
        }
        &&& self.run_id == before.run_id
        &&& self.allow_state_changes == before.allow_state_changes
        &&& self.allow_state_reads == before.allow_state_reads
        &&& self.enforce_actions == before.enforce_actions
        &&& self.is_running_reactions == before.is_running_reactions
        &&& self.same_tables(before)
        &&& self.spy_log() == before.spy_log()
        &&& self.trace() == before.trace()
    }

    /// `self` follows `before` by leaving a batch: the depth shrinks by one;
    /// nothing else changes.
    pub open(crate) spec fn left_batch(&self, before: &Self) -> bool {
        &&& self.in_batch == before.in_batch - 1
        &&& self.run_id == before.run_id
        &&& self.allow_state_changes == before.allow_state_changes
        &&& self.allow_state_reads == before.allow_state_reads
        &&& self.enforce_actions == before.enforce_actions
        &&& self.is_running_reactions == before.is_running_reactions
        &&& self.same_tables(before)
        &&& self.spy_log() == before.spy_log()
        &&& self.trace() == before.trace()
    }

    /// `self` follows `before` by queuing `r`: it is appended unless already
    /// queued; nothing else changes.
    pub open(crate) spec fn enqueued(&self, before: &Self, r: ReactionId) -> bool {
        &&& self.pending() == if before.pending().contains(r) {
            before.pending()
        } else {
            before.pending().push(r)
        }
        &&& self.same_scalars(before)
        &&& self.same_graph(before)
        &&& self.warnings() == before.warnings()
        &&& self.listeners() == before.listeners()
        &&& self.next_listener() == before.next_listener()
        &&& self.tracking() == before.tracking()
    }

    /// `self` follows `before` by taking `r` off the queue: the oldest
    /// queued reaction, or nothing when the queue is empty; nothing else
    /// changes.
    pub open(crate) spec fn dequeued(&self, before: &Self, r: Option<ReactionId>) -> bool {
        &&& if before.pending().len() == 0 {
            r is None && self.pending() == before.pending()
        } else {
            r == Some(before.pending()[0]) && self.pending() == before.pending().drop_first()
        }
        &&& self.same_scalars(before)
        &&& self.same_graph(before)
        &&& self.warnings() == before.warnings()
        &&& self.listeners() == before.listeners()
        &&& self.next_listener() == before.next_listener()
        &&& self.tracking() == before.tracking()
    }

    /// The spy listeners are registered once each, under identifiers below
    /// the next one to issue.
    pub open(crate) spec fn listeners_wf(&self) -> bool {
        &&& self.spy_listeners@.no_duplicates()
        &&& forall|i: int| 0 <= i < self.spy_listeners@.len() ==> #[trigger] self.spy_listeners@[i]
            < self.next_spy_listener_id
    }

    /// The invariant every operation keeps: no reaction is queued twice.
    pub open(crate) spec fn wf(&self) -> bool {
        self.pending_reactions@.no_duplicates()
    }

    /// A fresh runtime: no batch, reads and changes allowed, policy `Never`,
    /// nothing queued, no warnings, no listeners, no entities.
    pub fn new() -> (rt: Self)
        ensures
            rt.wf(),
            rt.listeners_wf(),
            rt.run_id_spec() == 0,
            rt.batch_spec() == 0,
            rt.allows_changes(),
            rt.allows_reads(),
            rt.policy() == EnforcePolicy::Never,
            rt.pending() == Seq::<ReactionId>::empty(),
            !rt.running(),
            rt.warnings() == Seq::<Seq<char>>::empty(),
            rt.listeners() == Seq::<u64>::empty(),
            rt.next_listener() == 1,
            rt.tracking() is None,
            rt.observable_table() == Map::<u64, ObservableRecord>::empty(),
            rt.derivation_table() == Map::<u64, DerivationRecord>::empty(),
            rt.reaction_table() == Map::<u64, ReactionRecord>::empty(),
            rt.issued_counts() == (0u64, 0u64, 0u64),
            rt.spy_log() == Seq::<(Seq<u64>, SpyEvent)>::empty(),
            rt.trace() == Seq::<Step>::empty(),
    {
        let rt = MobxRuntime {
            run_id: 0,
            in_batch: 0,
            allow_state_changes: true,
            allow_state_reads: true,
            enforce_actions: EnforcePolicy::Never,
            pending_reactions: Vec::new(),
            is_running_reactions: false,
            strict_mode_warnings: Vec::new(),
            spy_listeners: Vec::new(),
            next_spy_listener_id: 1,
            tracking_derivation: None,
            observables: IdRegistry::new(),
            derivations: IdRegistry::new(),
            reactions: IdRegistry::new(),
            spy_log: Ghost(Seq::empty()),
            trace: Ghost(Seq::empty()),
        };
        proof {
            assert(rt.strict_mode_warnings@.map_values(|s: String| s@) =~= Seq::<Seq<char>>::empty());
        }
        rt
    }

    /// Advances the run counter and returns the new value.
    pub fn next_run_id(&mut self) -> (r: u64)
        requires
            old(self).run_id_spec() < u64::MAX,
        ensures
            final(self).spy_log() == old(self).spy_log(),
            r == old(self).run_id_spec() + 1,
            final(self).run_id_spec() == r,
            final(self).batch_spec() == old(self).batch_spec(),
            final(self).allows_changes() == old(self).allows_changes(),
            final(self).allows_reads() == old(self).allows_reads(),
            final(self).policy() == old(self).policy(),
            final(self).running() == old(self).running(),
            final(self).same_tables(old(self)),
    {
        self.run_id = self.run_id + 1;
        self.run_id
    }

    /// The current value of the run counter.
    pub fn current_run_id(&self) -> (r: u64)
        ensures
            r == self.run_id_spec(),
    {
        self.run_id
    }

    /// Sets whether state changes are allowed; returns the previous setting.
    pub fn swap_allow_state_changes(&mut self, allow: bool) -> (previous: bool)
        ensures
            previous == old(self).allows_changes(),
            final(self).allows_changes() == allow,
            final(self).run_id_spec() == old(self).run_id_spec(),
            final(self).batch_spec() == old(self).batch_spec(),
            final(self).allows_reads() == old(self).allows_reads(),
            final(self).policy() == old(self).policy(),
            final(self).running() == old(self).running(),
            final(self).same_tables(old(self)),
    {
        let previous = self.allow_state_changes;
        self.allow_state_changes = allow;
        previous
    }

    /// Sets whether state reads are allowed; returns the previous setting.
    pub fn swap_allow_state_reads(&mut self, allow: bool) -> (previous: bool)
        ensures
            previous == old(self).allows_reads(),
            final(self).allows_reads() == allow,
            final(self).run_id_spec() == old(self).run_id_spec(),
            final(self).batch_spec() == old(self).batch_spec(),
            final(self).allows_changes() == old(self).allows_changes(),
            final(self).policy() == old(self).policy(),
            final(self).running() == old(self).running(),
            final(self).same_tables(old(self)),
    {
        let previous = self.allow_state_reads;
        self.allow_state_reads = allow;
        previous
    }

    /// Whether state changes are currently allowed outright.
    pub fn is_allowing_state_changes(&self) -> (r: bool)
        ensures
            r == self.allows_changes(),
    {
        self.allow_state_changes
    }

    /// Whether state reads are currently allowed.
    pub fn is_allowing_state_reads(&self) -> (r: bool)
        ensures
            r == self.allows_reads(),
    {
        self.allow_state_reads
    }

    /// Sets the strict-mode policy. State changes are allowed outright exactly
    /// when the policy is `Never`.
    pub fn set_enforce_actions(&mut self, policy: EnforcePolicy)
        ensures
            final(self).policy() == policy,
            final(self).allows_changes() == (policy == EnforcePolicy::Never),
            final(self).run_id_spec() == old(self).run_id_spec(),
            final(self).batch_spec() == old(self).batch_spec(),
            final(self).allows_reads() == old(self).allows_reads(),
            final(self).running() == old(self).running(),
            final(self).same_tables(old(self)),
    {
        self.enforce_actions = policy;
        self.allow_state_changes = match policy {
            EnforcePolicy::Never => true,
            _ => false,
        };
    }

    /// The current strict-mode policy.
    pub fn enforce_actions_policy(&self) -> (p: EnforcePolicy)
        ensures
            p == self.policy(),
    {
        self.enforce_actions
    }

    /// Whether a change to an observable (observed or not) is allowed now.
    pub fn state_change_allowed(&self, is_observed: bool) -> (r: bool)
        ensures
            r == change_allowed(self.allows_changes(), self.policy(), is_observed),
    {
        if self.allow_state_changes {
            return true;
        }
        match self.enforce_actions {
            EnforcePolicy::Never => true,
            EnforcePolicy::Observed => !is_observed,
            EnforcePolicy::Always => false,
        }
    }

    /// Records a strict-mode violation for a change to the named observable,
    /// when the change is not allowed, and returns the warning.
    pub fn evaluate_strict_mode_violation(&mut self, observable_name: &str, is_observed: bool) -> (r:
        Option<String>)
        ensures
            change_allowed(old(self).allows_changes(), old(self).policy(), is_observed) ==> {
                &&& r is None
                &&& final(self).warnings() == old(self).warnings()
            },
            !change_allowed(old(self).allows_changes(), old(self).policy(), is_observed) ==> {
                &&& r is Some
                &&& r->0@ == strict_mode_message(policy_label(old(self).policy()), observable_name@)
                &&& final(self).warnings() == old(self).warnings().push(r->0@)
            },
            final(self).run_id_spec() == old(self).run_id_spec(),
            final(self).batch_spec() == old(self).batch_spec(),
            final(self).allows_changes() == old(self).allows_changes(),
            final(self).allows_reads() == old(self).allows_reads(),
            final(self).policy() == old(self).policy(),
            final(self).running() == old(self).running(),
            final(self).pending() == old(self).pending(),
            final(self).listeners() == old(self).listeners(),
            final(self).next_listener() == old(self).next_listener(),
            final(self).tracking() == old(self).tracking(),
            final(self).observable_table() == old(self).observable_table(),
            final(self).derivation_table() == old(self).derivation_table(),
            final(self).reaction_table() == old(self).reaction_table(),
            final(self).issued_counts() == old(self).issued_counts(),
            final(self).spy_log() == old(self).spy_log(),
            final(self).trace() == old(self).trace(),
    {
        if self.state_change_allowed(is_observed) {
            return None;
        }
        let label = match self.enforce_actions {
            EnforcePolicy::Always => "always",
            _ => "observed",
        };
        let mut message = String::from_str("strict mode (");
        message.append(label);
        message.append(") violation: observable `");
        message.append(observable_name);
        message.append("` was modified outside an action");
        let copy = message.clone();
        let ghost before = self.strict_mode_warnings@;
        self.strict_mode_warnings.push(copy);
        proof {
            assert(self.strict_mode_warnings@.map_values(|s: String| s@) =~= before.map_values(
                |s: String| s@,
            ).push(message@));
        }
        Some(message)
    }

    /// Hands back the recorded strict-mode warnings and forgets them.
    pub fn drain_strict_mode_warnings(&mut self) -> (r: Vec<String>)
        ensures
            r@.map_values(|s: String| s@) == old(self).warnings(),
            final(self).warnings() == Seq::<Seq<char>>::empty(),
            final(self).run_id_spec() == old(self).run_id_spec(),
            final(self).batch_spec() == old(self).batch_spec(),
            final(self).allows_changes() == old(self).allows_changes(),
            final(self).allows_reads() == old(self).allows_reads(),
            final(self).policy() == old(self).policy(),
            final(self).running() == old(self).running(),
            final(self).pending() == old(self).pending(),
            final(self).listeners() == old(self).listeners(),
            final(self).next_listener() == old(self).next_listener(),
            final(self).tracking() == old(self).tracking(),
            final(self).observable_table() == old(self).observable_table(),
            final(self).derivation_table() == old(self).derivation_table(),
            final(self).reaction_table() == old(self).reaction_table(),
            final(self).issued_counts() == old(self).issued_counts(),
    {
        let mut r: Vec<String> = Vec::new();
        std::mem::swap(&mut r, &mut self.strict_mode_warnings);
        proof {
            assert(self.strict_mode_warnings@.map_values(|s: String| s@) =~= Seq::<Seq<char>>::empty());
        }
        r
    }

    /// Issues a fresh spy listener identifier.
    fn next_spy_listener_id(&mut self) -> (id: u64)
        requires
            old(self).next_listener() < u64::MAX,
        ensures
            final(self).spy_log() == old(self).spy_log(),
            id == old(self).next_listener(),
            final(self).next_listener() == id + 1,
            final(self).listeners() == old(self).listeners(),
            final(self).same_scalars(old(self)),
            final(self).same_graph(old(self)),
            final(self).pending() == old(self).pending(),
            final(self).warnings() == old(self).warnings(),
    {
        let id = self.next_spy_listener_id;
        self.next_spy_listener_id = self.next_spy_listener_id + 1;
        id
    }

    /// The identifier the next registered spy listener gets.
    pub fn next_spy_listener(&self) -> (r: u64)
        ensures
            r == self.next_listener(),
    {
        self.next_spy_listener_id
    }

    /// Registers a spy listener and returns its identifier, which is larger
    /// than every identifier issued before.
    pub fn add_spy_listener(&mut self) -> (id: u64)
        requires
            old(self).next_listener() < u64::MAX,
        ensures
            final(self).spy_log() == old(self).spy_log(),
            id == old(self).next_listener(),
            final(self).next_listener() == id + 1,
            final(self).listeners() == old(self).listeners().push(id),
            old(self).listeners_wf() ==> final(self).listeners_wf(),
            final(self).same_scalars(old(self)),
            final(self).same_graph(old(self)),
            final(self).pending() == old(self).pending(),
            final(self).warnings() == old(self).warnings(),
    {
        let id = self.next_spy_listener_id();
        self.spy_listeners.push(id);
        id
    }

    /// Unregisters the first listener with the identifier; `true` when one was
    /// registered.
    pub fn remove_spy_listener(&mut self, id: u64) -> (removed: bool)
        ensures
            final(self).spy_log() == old(self).spy_log(),
            removed == old(self).listeners().contains(id),
            removed ==> exists|i: int|
                0 <= i < old(self).listeners().len() && old(self).listeners()[i] == id
                    && (forall|j: int| 0 <= j < i ==> old(self).listeners()[j] != id)
                    && final(self).listeners() == old(self).listeners().remove(i),
            !removed ==> final(self).listeners() == old(self).listeners(),
            old(self).listeners_wf() ==> final(self).listeners_wf(),
            final(self).next_listener() == old(self).next_listener(),
            final(self).same_scalars(old(self)),
            final(self).same_graph(old(self)),
            final(self).pending() == old(self).pending(),
            final(self).warnings() == old(self).warnings(),
    {
        let mut i: usize = 0;
        while i < self.spy_listeners.len()
            invariant
                0 <= i <= self.spy_listeners.len(),
                self.spy_listeners@ == old(self).spy_listeners@,
                forall|j: int| 0 <= j < i ==> self.spy_listeners@[j] != id,
                self.same_scalars(old(self)),
                self.same_graph(old(self)),
                self.pending() == old(self).pending(),
                self.warnings() == old(self).warnings(),
                self.next_listener() == old(self).next_listener(),
                self.spy_log() == old(self).spy_log(),
            decreases self.spy_listeners.len() - i,
        {
            if self.spy_listeners[i] == id {
                self.spy_listeners.remove(i);
                proof {
                    let k = i as int;
                    assert(0 <= k < old(self).listeners().len() && old(self).listeners()[k] == id
                        && (forall|j: int| 0 <= j < k ==> old(self).listeners()[j] != id)
                        && self.listeners() == old(self).listeners().remove(k));
                }
                return true;
            }
            i = i + 1;
        }
        false
    }

    /// Whether any spy listener is registered.
    pub fn has_spy_listeners(&self) -> (r: bool)
        ensures
            r == (self.listeners().len() > 0),
    {
        self.spy_listeners.len() > 0
    }

    /// The registered spy listeners, in registration order.
    pub fn spy_listeners_snapshot(&self) -> (r: Vec<u64>)
        ensures
            r@ == self.listeners(),
    {
        self.spy_listeners.clone()
    }

    /// Enters a batch; the depth saturates at `usize::MAX`.
    pub fn enter_batch(&mut self)
        ensures
            final(self).entered_batch(old(self)),
    {
        self.in_batch = self.in_batch.saturating_add(1);
    }

    /// Leaves a batch.
    pub fn exit_batch(&mut self)
        requires
            old(self).batch_spec() > 0,
        ensures
            final(self).left_batch(old(self)),
    {
        self.in_batch = self.in_batch - 1;
    }

    /// The current batch depth.
    pub fn batch_depth(&self) -> (r: usize)
        ensures
            r == self.batch_spec(),
    {
        self.in_batch
    }

    /// Sets the derivation that collects observed dependencies; returns the
    /// previous one.
    pub fn swap_tracking_derivation(&mut self, derivation: Option<DerivationId>) -> (previous:
        Option<DerivationId>)
        ensures
            final(self).spy_log() == old(self).spy_log(),
            previous == old(self).tracking(),
            final(self).tracking() == derivation,
            final(self).same_scalars(old(self)),
            final(self).same_graph(old(self)),
            final(self).pending() == old(self).pending(),
            final(self).warnings() == old(self).warnings(),
            final(self).listeners() == old(self).listeners(),
            final(self).next_listener() == old(self).next_listener(),
    {
        let previous = self.tracking_derivation;
        self.tracking_derivation = derivation;
        previous
    }

    /// The derivation that currently collects observed dependencies.
    pub fn tracking_derivation(&self) -> (r: Option<DerivationId>)
        ensures
            r == self.tracking(),
    {
        self.tracking_derivation
    }

    /// Queues a reaction unless it is already queued.
    pub fn enqueue_reaction(&mut self, reaction: ReactionId)
        ensures
            final(self).spy_log() == old(self).spy_log(),
            final(self).enqueued(old(self), reaction),
            old(self).wf() ==> final(self).wf(),
    {
        let mut i: usize = 0;
        while i < self.pending_reactions.len()
            invariant
                0 <= i <= self.pending_reactions.len(),
                forall|j: int| 0 <= j < i ==> self.pending_reactions@[j] != reaction,
            decreases self.pending_reactions.len() - i,
        {
            if self.pending_reactions[i] == reaction {
                return;
            }
            i = i + 1;
        }
        self.pending_reactions.push(reaction);
    }

    /// Takes the oldest queued reaction off the queue.
    pub fn next_pending_reaction(&mut self) -> (r: Option<ReactionId>)
        ensures
            final(self).dequeued(old(self), r),
            old(self).wf() ==> final(self).wf(),
            old(self).pending().len() == 0 ==> r is None && *final(self) == *old(self),
    {
        if self.pending_reactions.len() == 0 {
            None
        } else {
            let r = self.pending_reactions.remove(0);
            proof {
                assert(old(self).pending().remove(0) =~= old(self).pending().drop_first());
            }
            Some(r)
        }
    }

    /// Empties the reaction queue.
    pub fn clear_pending_reactions(&mut self)
        ensures
            final(self).pending() == Seq::<ReactionId>::empty(),
            final(self).wf(),
            final(self).same_scalars(old(self)),
            final(self).same_graph(old(self)),
            final(self).warnings() == old(self).warnings(),
            final(self).listeners() == old(self).listeners(),
            final(self).next_listener() == old(self).next_listener(),
            final(self).tracking() == old(self).tracking(),
    {
        self.pending_reactions.clear();
    }

    /// Whether any reaction is queued.
    pub fn has_pending_reactions(&self) -> (r: bool)
        ensures
            r == (self.pending().len() > 0),
    {
        self.pending_reactions.len() > 0
    }

    /// Sets the "flushing reactions" flag; returns the previous value.
    pub fn set_running_reactions(&mut self, running: bool) -> (previous: bool)
        ensures
            previous == old(self).running(),
            *final(self) == old(self).with_running(running),
            final(self).running() == running,
            final(self).run_id_spec() == old(self).run_id_spec(),
            final(self).batch_spec() == old(self).batch_spec(),
            final(self).allows_changes() == old(self).allows_changes(),
            final(self).allows_reads() == old(self).allows_reads(),
            final(self).policy() == old(self).policy(),
            final(self).same_tables(old(self)),
    {
        let previous = self.is_running_reactions;
        self.is_running_reactions = running;
        previous
    }

    /// Whether reactions are being flushed.
    pub fn is_running_reactions(&self) -> (r: bool)
        ensures
            r == self.running(),
    {
        self.is_running_reactions
    }

    /// Returns the runtime to the state of a fresh one, but keeps the tables
    /// of observables, derivations and reactions.
    pub fn reset(&mut self)
        ensures
            final(self).wf(),
            final(self).listeners_wf(),
            final(self).run_id_spec() == 0,
            final(self).batch_spec() == 0,
            final(self).allows_changes(),
            final(self).allows_reads(),
            final(self).policy() == EnforcePolicy::Never,
            final(self).pending() == Seq::<ReactionId>::empty(),
            !final(self).running(),
            final(self).warnings() == Seq::<Seq<char>>::empty(),
            final(self).listeners() == Seq::<u64>::empty(),
            final(self).next_listener() == 1,
            final(self).tracking() is None,
            final(self).same_graph(old(self)),
    {
        self.run_id = 0;
        self.in_batch = 0;
        self.allow_state_changes = true;
        self.allow_state_reads = true;
        self.enforce_actions = EnforcePolicy::Never;
        self.pending_reactions = Vec::new();
        self.is_running_reactions = false;
        self.strict_mode_warnings = Vec::new();
        self.spy_listeners = Vec::new();
        self.next_spy_listener_id = 1;
        self.tracking_derivation = None;
        proof {
            assert(self.strict_mode_warnings@.map_values(|s: String| s@) =~= Seq::<Seq<char>>::empty());
        }
    }
}


/// Temporary override of the "state changes allowed" flag; `restore` puts the
/// previous setting back.
#[must_use]
pub struct AllowStateChangesGuard {
    previous: bool,
}

impl AllowStateChangesGuard {
    /// The setting `restore` puts back.
    pub closed spec fn previous(&self) -> bool {
        self.previous
    }

    /// Sets the flag to `allow` and remembers the previous setting.
    pub fn new(rt: &mut MobxRuntime, allow: bool) -> (guard: Self)
        ensures
            guard.previous() == old(rt).allows_changes(),
            final(rt).allows_changes() == allow,
            final(rt).allows_reads() == old(rt).allows_reads(),
            final(rt).run_id_spec() == old(rt).run_id_spec(),
            final(rt).batch_spec() == old(rt).batch_spec(),
            final(rt).policy() == old(rt).policy(),
            final(rt).running() == old(rt).running(),
            final(rt).same_tables(old(rt)),
    {
        let previous = rt.swap_allow_state_changes(allow);
        AllowStateChangesGuard { previous }
    }

    /// Puts the remembered setting back.
    pub fn restore(self, rt: &mut MobxRuntime)
        ensures
            final(rt).allows_changes() == self.previous(),
            final(rt).allows_reads() == old(rt).allows_reads(),
            final(rt).run_id_spec() == old(rt).run_id_spec(),
            final(rt).batch_spec() == old(rt).batch_spec(),
            final(rt).policy() == old(rt).policy(),
            final(rt).running() == old(rt).running(),
            final(rt).same_tables(old(rt)),
    {
        rt.swap_allow_state_changes(self.previous);
    }
}

/// Temporary override of the "state reads allowed" flag; `restore` puts the
/// previous setting back.
#[must_use]
pub struct AllowStateReadsGuard {
    previous: bool,
}

impl AllowStateReadsGuard {
    /// The setting `restore` puts back.
    pub closed spec fn previous(&self) -> bool {
        self.previous
    }

    /// Sets the flag to `allow` and remembers the previous setting.
    pub fn new(rt: &mut MobxRuntime, allow: bool) -> (guard: Self)
        ensures
            guard.previous() == old(rt).allows_reads(),
            final(rt).allows_reads() == allow,
            final(rt).allows_changes() == old(rt).allows_changes(),
            final(rt).run_id_spec() == old(rt).run_id_spec(),
            final(rt).batch_spec() == old(rt).batch_spec(),
            final(rt).policy() == old(rt).policy(),
            final(rt).running() == old(rt).running(),
            final(rt).same_tables(old(rt)),
    {
        let previous = rt.swap_allow_state_reads(allow);
        AllowStateReadsGuard { previous }
    }

    /// Puts the remembered setting back.
    pub fn restore(self, rt: &mut MobxRuntime)
        ensures
            final(rt).allows_reads() == self.previous(),
            final(rt).allows_changes() == old(rt).allows_changes(),
            final(rt).run_id_spec() == old(rt).run_id_spec(),
            final(rt).batch_spec() == old(rt).batch_spec(),
            final(rt).policy() == old(rt).policy(),
            final(rt).running() == old(rt).running(),
            final(rt).same_tables(old(rt)),
    {
        rt.swap_allow_state_reads(self.previous);
    }
}

/// A batch entered by `start_batch`; `end` leaves it.
#[must_use]
pub struct BatchGuard {
    active: bool,
}

impl BatchGuard {
    /// Whether the batch has not been left yet.
    pub closed spec fn is_active(&self) -> bool {
        self.active
    }

    /// Enters a batch.
    pub fn new(rt: &mut MobxRuntime) -> (guard: Self)
        ensures
            guard.is_active(),
            final(rt).batch_spec() == if old(rt).batch_spec() == usize::MAX {
                usize::MAX as int
            } else {
                old(rt).batch_spec() + 1
            },
            final(rt).run_id_spec() == old(rt).run_id_spec(),
            final(rt).allows_changes() == old(rt).allows_changes(),
            final(rt).allows_reads() == old(rt).allows_reads(),
            final(rt).policy() == old(rt).policy(),
            final(rt).running() == old(rt).running(),
            final(rt).same_tables(old(rt)),
    {
        rt.enter_batch();
        BatchGuard { active: true }
    }

    /// Leaves the batch unless it was left already. Leaving a batch at depth
    /// zero is a fault.
    pub fn deactivate(&mut self, rt: &mut MobxRuntime) -> (r: Result<(), Fault>)
        ensures
            !final(self).is_active(),
            old(self).is_active() && old(rt).batch_spec() == 0 ==> r == Err::<(), Fault>(
                Fault::BatchUnderflow,
            ) && final(rt).batch_spec() == 0,
            old(self).is_active() && old(rt).batch_spec() > 0 ==> r is Ok && final(rt).batch_spec()
                == old(rt).batch_spec() - 1,
            !old(self).is_active() ==> r is Ok && final(rt).batch_spec() == old(rt).batch_spec(),
            final(rt).run_id_spec() == old(rt).run_id_spec(),
            final(rt).allows_changes() == old(rt).allows_changes(),
            final(rt).allows_reads() == old(rt).allows_reads(),
            final(rt).policy() == old(rt).policy(),
            final(rt).running() == old(rt).running(),
            final(rt).same_tables(old(rt)),
    {
        if self.active {
            self.active = false;
            if rt.in_batch == 0 {
                return Err(Fault::BatchUnderflow);
            }
            rt.exit_batch();
        }
        Ok(())
    }

    /// Leaves the batch.
    pub fn end(self, rt: &mut MobxRuntime) -> (r: Result<(), Fault>)
        ensures
            self.is_active() && old(rt).batch_spec() == 0 ==> r == Err::<(), Fault>(
                Fault::BatchUnderflow,
            ) && final(rt).batch_spec() == 0,
            self.is_active() && old(rt).batch_spec() > 0 ==> r is Ok && final(rt).batch_spec()
                == old(rt).batch_spec() - 1,
            !self.is_active() ==> r is Ok && final(rt).batch_spec() == old(rt).batch_spec(),
            final(rt).run_id_spec() == old(rt).run_id_spec(),
            final(rt).allows_changes() == old(rt).allows_changes(),
            final(rt).allows_reads() == old(rt).allows_reads(),
            final(rt).policy() == old(rt).policy(),
            final(rt).running() == old(rt).running(),
            final(rt).same_tables(old(rt)),
    {
        let mut guard = self;
        guard.deactivate(rt)
    }
}

/// Overrides the "state changes allowed" flag until the guard is restored.
pub fn allow_state_changes_guard(rt: &mut MobxRuntime, allow: bool) -> (guard: AllowStateChangesGuard)
    ensures
        guard.previous() == old(rt).allows_changes(),
        final(rt).allows_changes() == allow,
        final(rt).allows_reads() == old(rt).allows_reads(),
        final(rt).run_id_spec() == old(rt).run_id_spec(),
        final(rt).batch_spec() == old(rt).batch_spec(),
        final(rt).policy() == old(rt).policy(),
        final(rt).running() == old(rt).running(),
        final(rt).same_tables(old(rt)),
{
    AllowStateChangesGuard::new(rt, allow)
}

/// Overrides the "state reads allowed" flag until the guard is restored.
pub fn allow_state_reads_guard(rt: &mut MobxRuntime, allow: bool) -> (guard: AllowStateReadsGuard)
    ensures
        guard.previous() == old(rt).allows_reads(),
        final(rt).allows_reads() == allow,
        final(rt).allows_changes() == old(rt).allows_changes(),
        final(rt).run_id_spec() == old(rt).run_id_spec(),
        final(rt).batch_spec() == old(rt).batch_spec(),
        final(rt).policy() == old(rt).policy(),
        final(rt).running() == old(rt).running(),
        final(rt).same_tables(old(rt)),
{
    AllowStateReadsGuard::new(rt, allow)
}

/// Enters a batch until the guard is ended.
pub fn start_batch(rt: &mut MobxRuntime) -> (guard: BatchGuard)
    ensures
        guard.is_active(),
        final(rt).batch_spec() == if old(rt).batch_spec() == usize::MAX {
            usize::MAX as int
        } else {
            old(rt).batch_spec() + 1
        },
        final(rt).run_id_spec() == old(rt).run_id_spec(),
        final(rt).allows_changes() == old(rt).allows_changes(),
        final(rt).allows_reads() == old(rt).allows_reads(),
        final(rt).policy() == old(rt).policy(),
        final(rt).running() == old(rt).running(),
        final(rt).same_tables(old(rt)),
{
    BatchGuard::new(rt)
}

/// The current batch depth.
pub fn batch_depth(rt: &MobxRuntime) -> (r: usize)
    ensures
        r == rt.batch_spec(),
{
    rt.batch_depth()
}

/// Whether state changes are currently allowed outright.
pub fn state_changes_allowed(rt: &MobxRuntime) -> (r: bool)
    ensures
        r == rt.allows_changes(),
{
    rt.is_allowing_state_changes()
}

/// Whether state reads are currently allowed.
pub fn state_reads_allowed(rt: &MobxRuntime) -> (r: bool)
    ensures
        r == rt.allows_reads(),
{
    rt.is_allowing_state_reads()
}

/// Sets the derivation that collects dependencies; returns the previous one.
pub fn set_tracking_derivation(rt: &mut MobxRuntime, derivation: Option<DerivationId>) -> (previous:
    Option<DerivationId>)
    ensures
        previous == old(rt).tracking(),
        final(rt).tracking() == derivation,
        final(rt).same_scalars(old(rt)),
        final(rt).same_graph(old(rt)),
        final(rt).pending() == old(rt).pending(),
        final(rt).warnings() == old(rt).warnings(),
        final(rt).listeners() == old(rt).listeners(),
        final(rt).next_listener() == old(rt).next_listener(),
{
    rt.swap_tracking_derivation(derivation)
}

/// The derivation that currently collects dependencies.
pub fn current_tracking_derivation(rt: &MobxRuntime) -> (r: Option<DerivationId>)
    ensures
        r == rt.tracking(),
{
    rt.tracking_derivation()
}

/// Advances the run counter and returns the new value.
pub fn next_run_id(rt: &mut MobxRuntime) -> (r: u64)
    requires
        old(rt).run_id_spec() < u64::MAX,
    ensures
        r == old(rt).run_id_spec() + 1,
        final(rt).run_id_spec() == r,
        final(rt).batch_spec() == old(rt).batch_spec(),
        final(rt).allows_changes() == old(rt).allows_changes(),
        final(rt).allows_reads() == old(rt).allows_reads(),
        final(rt).policy() == old(rt).policy(),
        final(rt).running() == old(rt).running(),
        final(rt).same_tables(old(rt)),
{
    rt.next_run_id()
}

/// The current value of the run counter.
pub fn current_run_id(rt: &MobxRuntime) -> (r: u64)
    ensures
        r == rt.run_id_spec(),
{
    rt.current_run_id()
}

/// Sets the strict-mode policy.
pub fn set_enforce_policy(rt: &mut MobxRuntime, policy: EnforcePolicy)
    ensures
        final(rt).policy() == policy,
        final(rt).allows_changes() == (policy == EnforcePolicy::Never),
        final(rt).run_id_spec() == old(rt).run_id_spec(),
        final(rt).batch_spec() == old(rt).batch_spec(),
        final(rt).allows_reads() == old(rt).allows_reads(),
        final(rt).running() == old(rt).running(),
        final(rt).same_tables(old(rt)),
{
    rt.set_enforce_actions(policy)
}

/// The current strict-mode policy.
pub fn enforce_policy(rt: &MobxRuntime) -> (p: EnforcePolicy)
    ensures
        p == rt.policy(),
{
    rt.enforce_actions_policy()
}

/// Whether a change to an observable (observed or not) is allowed now.
pub fn is_state_change_allowed(rt: &MobxRuntime, is_observed: bool) -> (r: bool)
    ensures
        r == change_allowed(rt.allows_changes(), rt.policy(), is_observed),
{
    rt.state_change_allowed(is_observed)
}

/// Records a strict-mode violation for a change to the named observable when
/// the change is not allowed, and returns the warning.
pub fn record_strict_mode_violation(rt: &mut MobxRuntime, observable_name: &str, is_observed: bool) -> (r:
    Option<String>)
    ensures
        change_allowed(old(rt).allows_changes(), old(rt).policy(), is_observed) ==> {
            &&& r is None
            &&& final(rt).warnings() == old(rt).warnings()
        },
        !change_allowed(old(rt).allows_changes(), old(rt).policy(), is_observed) ==> {
            &&& r is Some
            &&& r->0@ == strict_mode_message(policy_label(old(rt).policy()), observable_name@)
            &&& final(rt).warnings() == old(rt).warnings().push(r->0@)
        },
        final(rt).same_scalars(old(rt)),
        final(rt).same_graph(old(rt)),
        final(rt).pending() == old(rt).pending(),
        final(rt).listeners() == old(rt).listeners(),
        final(rt).next_listener() == old(rt).next_listener(),
        final(rt).tracking() == old(rt).tracking(),
{
    rt.evaluate_strict_mode_violation(observable_name, is_observed)
}

/// Hands back the recorded strict-mode warnings and forgets them.
pub fn drain_strict_mode_warnings(rt: &mut MobxRuntime) -> (r: Vec<String>)
    ensures
        r@.map_values(|s: String| s@) == old(rt).warnings(),
        final(rt).warnings() == Seq::<Seq<char>>::empty(),
        final(rt).same_scalars(old(rt)),
        final(rt).same_graph(old(rt)),
        final(rt).pending() == old(rt).pending(),
        final(rt).listeners() == old(rt).listeners(),
        final(rt).next_listener() == old(rt).next_listener(),
        final(rt).tracking() == old(rt).tracking(),
{
    rt.drain_strict_mode_warnings()
}

/// Queues a reaction unless it is already queued.
pub fn enqueue_reaction(rt: &mut MobxRuntime, reaction: ReactionId)
    ensures
        old(rt).pending().contains(reaction) ==> final(rt).pending() == old(rt).pending(),
        !old(rt).pending().contains(reaction) ==> final(rt).pending() == old(rt).pending().push(reaction),
        old(rt).wf() ==> final(rt).wf(),
        final(rt).same_scalars(old(rt)),
        final(rt).same_graph(old(rt)),
        final(rt).warnings() == old(rt).warnings(),
        final(rt).listeners() == old(rt).listeners(),
        final(rt).next_listener() == old(rt).next_listener(),
        final(rt).tracking() == old(rt).tracking(),
{
    rt.enqueue_reaction(reaction)
}

/// Takes the oldest queued reaction off the queue.
pub fn next_pending_reaction(rt: &mut MobxRuntime) -> (r: Option<ReactionId>)
    ensures
        old(rt).pending().len() == 0 ==> r is None && final(rt).pending() == old(rt).pending(),
        old(rt).pending().len() > 0 ==> r == Some(old(rt).pending()[0]) && final(rt).pending()
            == old(rt).pending().drop_first(),
        old(rt).wf() ==> final(rt).wf(),
        final(rt).same_scalars(old(rt)),
        final(rt).same_graph(old(rt)),
        final(rt).warnings() == old(rt).warnings(),
        final(rt).listeners() == old(rt).listeners(),
        final(rt).next_listener() == old(rt).next_listener(),
        final(rt).tracking() == old(rt).tracking(),
{
    rt.next_pending_reaction()
}

/// Whether any reaction is queued.
pub fn has_pending_reactions(rt: &MobxRuntime) -> (r: bool)
    ensures
        r == (rt.pending().len() > 0),
{
    rt.has_pending_reactions()
}

/// Sets the "flushing reactions" flag; returns the previous value.
pub fn set_running_reactions(rt: &mut MobxRuntime, running: bool) -> (previous: bool)
    ensures
        previous == old(rt).running(),
        final(rt).running() == running,
        final(rt).run_id_spec() == old(rt).run_id_spec(),
        final(rt).batch_spec() == old(rt).batch_spec(),
        final(rt).allows_changes() == old(rt).allows_changes(),
        final(rt).allows_reads() == old(rt).allows_reads(),
        final(rt).policy() == old(rt).policy(),
        final(rt).same_tables(old(rt)),
{
    rt.set_running_reactions(running)
}

/// Whether reactions are being flushed.
pub fn is_running_reactions(rt: &MobxRuntime) -> (r: bool)
    ensures
        r == rt.running(),
{
    rt.is_running_reactions()
}

/// Empties the reaction queue.
pub fn clear_pending_reactions(rt: &mut MobxRuntime)
    ensures
        final(rt).pending() == Seq::<ReactionId>::empty(),
        final(rt).wf(),
        final(rt).same_scalars(old(rt)),
        final(rt).same_graph(old(rt)),
        final(rt).warnings() == old(rt).warnings(),
        final(rt).listeners() == old(rt).listeners(),
        final(rt).next_listener() == old(rt).next_listener(),
        final(rt).tracking() == old(rt).tracking(),
{
    rt.clear_pending_reactions()
}

/// Returns the runtime to the state of a fresh one, keeping its tables.
pub fn reset_runtime(rt: &mut MobxRuntime)
    ensures
        final(rt).wf(),
        final(rt).run_id_spec() == 0,
        final(rt).batch_spec() == 0,
        final(rt).allows_changes(),
        final(rt).allows_reads(),
        final(rt).policy() == EnforcePolicy::Never,
        final(rt).pending() == Seq::<ReactionId>::empty(),
        !final(rt).running(),
        final(rt).warnings() == Seq::<Seq<char>>::empty(),
        final(rt).listeners() == Seq::<u64>::empty(),
        final(rt).next_listener() == 1,
        final(rt).tracking() is None,
        final(rt).same_graph(old(rt)),
{
    rt.reset()
}

/// Entering a batch and then leaving it gives back the depth found before,
/// with everything else unchanged.
pub proof fn law_batch_round_trip(a: MobxRuntime, b: MobxRuntime, c: MobxRuntime)
    requires
        a.batch_spec() < usize::MAX,
        b.entered_batch(&a),
        c.left_batch(&b),
    ensures
        c.batch_spec() == a.batch_spec(),
        c.run_id_spec() == a.run_id_spec(),
        c.allows_changes() == a.allows_changes(),
        c.allows_reads() == a.allows_reads(),
        c.policy() == a.policy(),
        c.running() == a.running(),
        c.same_tables(&a),
{
}

/// Queuing a reaction that is already queued changes nothing: a reaction is
/// never queued twice.
pub proof fn law_enqueue_idempotent(a: MobxRuntime, b: MobxRuntime, c: MobxRuntime, r: ReactionId)
    requires
        b.enqueued(&a, r),
        c.enqueued(&b, r),
    ensures
        b.pending().contains(r),
        c.pending() == b.pending(),
{
    if !a.pending().contains(r) {
        assert(b.pending()[b.pending().len() - 1] == r);
    }
}

/// The queue is first in, first out: of two reactions queued one after the
/// other on an empty queue, the first comes out first.
pub proof fn law_queue_first_in_first_out(
    a: MobxRuntime,
    b: MobxRuntime,
    c: MobxRuntime,
    d: MobxRuntime,
    x: ReactionId,
    y: ReactionId,
    taken: Option<ReactionId>,
)
    requires
        a.pending().len() == 0,
        x != y,
        b.enqueued(&a, x),
        c.enqueued(&b, y),
        d.dequeued(&c, taken),
    ensures
        taken == Some(x),
        d.pending() == seq![y],
{
    assert(b.pending() =~= seq![x]);
    assert(!b.pending().contains(y)) by {
        if b.pending().contains(y) {
            let i = choose|i: int| 0 <= i < b.pending().len() && b.pending()[i] == y;
            assert(b.pending()[i] == x);
        }
    }
    assert(c.pending() =~= seq![x, y]);
    assert(d.pending() =~= seq![y]);
}

/// Inside an action (state changes allowed), every change is allowed,
/// whatever the policy.
pub proof fn law_changes_allowed_inside_actions(policy: EnforcePolicy, is_observed: bool)
    ensures
        change_allowed(true, policy, is_observed),
{
}

/// Outside an action, the policy decides: `Never` allows every change,
/// `Observed` allows changes to unobserved observables only, `Always` allows
/// none.
pub proof fn law_policy_outside_actions(is_observed: bool)
    ensures
        change_allowed(false, EnforcePolicy::Never, is_observed),
        change_allowed(false, EnforcePolicy::Observed, is_observed) == !is_observed,
        !change_allowed(false, EnforcePolicy::Always, is_observed),
{
}

/// Handing out one event logs exactly that event, with the listeners, and
/// changes nothing else.
pub proof fn lemma_one_event(before: MobxRuntime, e: SpyEvent)
    ensures
        before.with_event(e).reported(&before, true, seq![event_view(e)]),
        before.with_event(e).same_but_log(&before),
{
    let after = before.with_event(e);
    assert(after.spy_log().take(before.spy_log().len() as int) =~= before.spy_log());
    assert(after.spy_log()[before.spy_log().len() as int] == (before.listeners(), e));
}

/// Events handed out in two steps are the events of both, in order.
pub proof fn lemma_reported_concat(
    a: MobxRuntime,
    b: MobxRuntime,
    c: MobxRuntime,
    emits: bool,
    first: Seq<(SpyKind, Seq<char>)>,
    second: Seq<(SpyKind, Seq<char>)>,
)
    requires
        b.reported(&a, emits, first),
        c.reported(&b, emits, second),
        b.listeners() == a.listeners(),
    ensures
        c.reported(&a, emits, first + second),
{
    if emits {
        let n = a.spy_log().len();
        let m = b.spy_log().len();
        assert(c.spy_log().take(n as int) =~= a.spy_log()) by {
            assert(c.spy_log().take(n as int) =~= c.spy_log().take(m as int).take(n as int));
        }
        assert forall|i: int| 0 <= i < (first + second).len() implies {
            let entry = #[trigger] c.spy_log()[n + i];
            &&& entry.0 == a.listeners()
            &&& event_view(entry.1) == (first + second)[i]
        } by {
            if i < first.len() {
                assert(c.spy_log()[n + i] == c.spy_log().take(m as int)[n + i]);
                assert(b.spy_log()[n + i] == b.spy_log()[n + i]);
            } else {
                let j = i - first.len();
                assert(c.spy_log()[n + i] == c.spy_log()[m + j]);
            }
        }
    }
}

/// Events handed out, then more appended to the log: the first ones come
/// first.
pub proof fn lemma_reported_then_more(
    a: MobxRuntime,
    b: MobxRuntime,
    c: MobxRuntime,
    emits: bool,
    events: Seq<(SpyKind, Seq<char>)>,
)
    requires
        b.reported(&a, emits, events),
        b.spy_log().len() <= c.spy_log().len(),
        c.spy_log().take(b.spy_log().len() as int) == b.spy_log(),
    ensures
        c.reported_first(&a, emits, events),
{
    let n = a.spy_log().len();
    let m = b.spy_log().len();
    assert(c.spy_log().take(n as int) =~= a.spy_log()) by {
        assert(c.spy_log().take(n as int) =~= c.spy_log().take(m as int).take(n as int));
    }
    if emits {
        assert forall|i: int| 0 <= i < events.len() implies {
            let entry = #[trigger] c.spy_log()[n + i];
            &&& entry.0 == a.listeners()
            &&& event_view(entry.1) == events[i]
        } by {
            assert(c.spy_log()[n + i] == c.spy_log().take(m as int)[n + i]);
        }
    }
}

/// Handing out nothing leaves the log as it is.
pub proof fn lemma_no_event(rt: MobxRuntime, events: Seq<(SpyKind, Seq<char>)>)
    ensures
        rt.reported(&rt, false, events),
        rt.same_but_log(&rt),
{
}

} // verus!

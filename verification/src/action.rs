//! Actions: the state mutation windows of strict mode.
use crate::host::Host;
use crate::runtime::{
    AllowStateChangesGuard, AllowStateReadsGuard, BatchGuard, EnforcePolicy, Fault, MobxRuntime,
};
use crate::spy::{emit_spy_event, SpyEvent, SpyKind};
use vstd::prelude::*;

verus! {

/// Policies that determine when state modifications must occur inside actions.
#[derive(Clone, Copy, Debug, PartialEq, Eq, Structural)]
pub enum ActionPolicy {
    /// Never enforce actions: state changes are always permitted.
    Never,
    /// Only enforce actions for observables that are currently observed.
    Observed,
    /// Always enforce actions: all mutations must happen within an action.
    Always,
}

/// The runtime policy an action policy stands for.
pub open spec fn enforce_of(policy: ActionPolicy) -> EnforcePolicy {
    match policy {
        ActionPolicy::Never => EnforcePolicy::Never,
        ActionPolicy::Observed => EnforcePolicy::Observed,
        ActionPolicy::Always => EnforcePolicy::Always,
    }
}

/// The action policy a runtime policy stands for.
pub open spec fn action_of(policy: EnforcePolicy) -> ActionPolicy {
    match policy {
        EnforcePolicy::Never => ActionPolicy::Never,
        EnforcePolicy::Observed => ActionPolicy::Observed,
        EnforcePolicy::Always => ActionPolicy::Always,
    }
}

impl From<ActionPolicy> for EnforcePolicy {
    fn from(policy: ActionPolicy) -> (p: Self) {
        match policy {
            ActionPolicy::Never => EnforcePolicy::Never,
            ActionPolicy::Observed => EnforcePolicy::Observed,
            ActionPolicy::Always => EnforcePolicy::Always,
        }
    }
}

impl vstd::std_specs::convert::FromSpecImpl<ActionPolicy> for EnforcePolicy {
    open spec fn obeys_from_spec() -> bool {
        true
    }

    open spec fn from_spec(policy: ActionPolicy) -> Self {
        enforce_of(policy)
    }
}

impl From<EnforcePolicy> for ActionPolicy {
    fn from(policy: EnforcePolicy) -> (p: Self) {
        match policy {
            EnforcePolicy::Never => ActionPolicy::Never,
            EnforcePolicy::Observed => ActionPolicy::Observed,
            EnforcePolicy::Always => ActionPolicy::Always,
        }
    }
}

impl vstd::std_specs::convert::FromSpecImpl<EnforcePolicy> for ActionPolicy {
    open spec fn obeys_from_spec() -> bool {
        true
    }

    open spec fn from_spec(policy: EnforcePolicy) -> Self {
        action_of(policy)
    }
}

/// An open action: started by `new`, closed by `end`.
pub struct ActionContext {
    name: String,
    emit_spy_events: bool,
    reads_guard: AllowStateReadsGuard,
    changes_guard: AllowStateChangesGuard,
    batch_guard: BatchGuard,
}

impl ActionContext {
    #[verifier::type_invariant]
    spec fn holds_its_batch(&self) -> bool {
        self.batch_guard.is_active()
    }

    /// The reads setting `end` restores.
    pub closed spec fn saved_reads(&self) -> bool {
        self.reads_guard.previous()
    }

    /// The changes setting `end` restores.
    pub closed spec fn saved_changes(&self) -> bool {
        self.changes_guard.previous()
    }

    /// Whether the context still holds its batch.
    pub closed spec fn holds_batch(&self) -> bool {
        self.batch_guard.is_active()
    }

    /// Whether the action reports its start and end to the spy listeners
    /// (it does when there were listeners as it opened).
    pub closed spec fn reports(&self) -> bool {
        self.emit_spy_events
    }

    /// The name the action is reported under.
    pub closed spec fn action_name(&self) -> Seq<char> {
        self.name@
    }

    /// Opens an action: reports `ActionStart` to the spy listeners, enters a
    /// batch, and allows state reads and changes until `end`.
    pub fn new<H: Host>(rt: &mut MobxRuntime, host: &H, name: String) -> (ctx: Self)
        ensures
            ctx.saved_reads() == old(rt).allows_reads(),
            ctx.saved_changes() == old(rt).allows_changes(),
            ctx.holds_batch(),
            final(rt).allows_reads(),
            final(rt).allows_changes(),
            final(rt).batch_spec() == if old(rt).batch_spec() == usize::MAX {
                usize::MAX as int
            } else {
                old(rt).batch_spec() + 1
            },
            final(rt).run_id_spec() == old(rt).run_id_spec(),
            final(rt).policy() == old(rt).policy(),
            final(rt).running() == old(rt).running(),
            final(rt).same_tables_but_log(old(rt)),
            ctx.reports() == (old(rt).listeners().len() > 0),
            ctx.action_name() == name@,
            final(rt).reported(old(rt), ctx.reports(), seq![(SpyKind::ActionStart, name@)]),
    {
        let emit_spy_events = rt.has_spy_listeners();
        if emit_spy_events {
            let event_name = name.clone();
            let event = SpyEvent::ActionStart { name: event_name };
            let ghost before_emit = *rt;
            emit_spy_event(rt, host, &event);
            proof {
                crate::runtime::lemma_one_event(before_emit, event);
            }
        }
        let batch_guard = BatchGuard::new(rt);
        let reads_guard = AllowStateReadsGuard::new(rt, true);
        let changes_guard = AllowStateChangesGuard::new(rt, true);
        ActionContext { name, emit_spy_events, reads_guard, changes_guard, batch_guard }
    }

    /// Closes the action: reports `ActionEnd`, restores the read and change
    /// settings found at `new`, and leaves the batch.
    pub fn end<H: Host>(self, rt: &mut MobxRuntime, host: &H) -> (r: Result<(), Fault>)
        ensures
            final(rt).allows_reads() == self.saved_reads(),
            final(rt).allows_changes() == self.saved_changes(),
            old(rt).batch_spec() == 0 ==> r == Err::<(), Fault>(Fault::BatchUnderflow)
                && final(rt).batch_spec() == 0,
            old(rt).batch_spec() > 0 ==> r is Ok && final(rt).batch_spec() == old(rt).batch_spec() - 1,
            final(rt).run_id_spec() == old(rt).run_id_spec(),
            final(rt).policy() == old(rt).policy(),
            final(rt).running() == old(rt).running(),
            final(rt).same_tables_but_log(old(rt)),
            final(rt).reported(old(rt), self.reports(), seq![(SpyKind::ActionEnd, self.action_name())]),
    {
        proof {
            use_type_invariant(&self);
        }
        let ActionContext { name, emit_spy_events, reads_guard, changes_guard, batch_guard } = self;
        if emit_spy_events {
            let event = SpyEvent::ActionEnd { name };
            let ghost before_emit = *rt;
            emit_spy_event(rt, host, &event);
            proof {
                crate::runtime::lemma_one_event(before_emit, event);
            }
        }
        reads_guard.restore(rt);
        changes_guard.restore(rt);
        batch_guard.end(rt)
    }
}

/// An action opened on `before` ran its closure from `start` to `end`; the
/// closure returned `v`; closing the action left `after` and the result
/// `r`. The closure ran with state reads and changes allowed, one batch
/// deeper than `before` (saturating), on the graph found; closing restores
/// the read and change settings of `before` and leaves the batch, which
/// fails with `BatchUnderflow` when the closure left no batch open. With
/// spy listeners present at the start, `ActionStart` and `ActionEnd` are
/// reported under `name` around the closure.
pub open spec fn action_closed<T>(
    before: MobxRuntime,
    start: MobxRuntime,
    end: MobxRuntime,
    after: MobxRuntime,
    v: T,
    r: Result<T, Fault>,
    name: Seq<char>,
) -> bool {
    &&& start.allows_reads()
    &&& start.allows_changes()
    &&& start.batch_spec() == if before.batch_spec() == usize::MAX {
        usize::MAX as int
    } else {
        before.batch_spec() + 1
    }
    &&& start.run_id_spec() == before.run_id_spec()
    &&& start.policy() == before.policy()
    &&& start.running() == before.running()
    &&& start.same_tables_but_log(&before)
    &&& start.reported(&before, before.listeners().len() > 0, seq![(SpyKind::ActionStart, name)])
    &&& end.batch_spec() == 0 ==> r == Err::<T, Fault>(Fault::BatchUnderflow) && after.batch_spec() == 0
    &&& end.batch_spec() > 0 ==> r == Ok::<T, Fault>(v) && after.batch_spec() == end.batch_spec() - 1
    &&& after.allows_reads() == before.allows_reads()
    &&& after.allows_changes() == before.allows_changes()
    &&& after.run_id_spec() == end.run_id_spec()
    &&& after.policy() == end.policy()
    &&& after.running() == end.running()
    &&& after.same_tables_but_log(&end)
    &&& after.reported(&end, before.listeners().len() > 0, seq![(SpyKind::ActionEnd, name)])
}

/// Runs the closure inside an action with the given name: within it, state
/// reads and changes are allowed and changes are batched; afterwards the
/// read and change settings are those found before. Returns what the
/// closure returned, or `BatchUnderflow` when the closure left the batch
/// the action had entered.
pub fn action<T, H: Host, F: FnOnce(&mut MobxRuntime) -> T>(rt: &mut MobxRuntime, host: &H, name: String, f: F) -> (r:
    Result<T, Fault>)
    requires
        forall|x: &mut MobxRuntime| x.allows_reads() && x.allows_changes() ==> #[trigger] f.requires((x,)),
    ensures
        final(rt).allows_reads() == old(rt).allows_reads(),
        final(rt).allows_changes() == old(rt).allows_changes(),
        r matches Err(fault) ==> fault == Fault::BatchUnderflow,
        exists|x: &mut MobxRuntime, v: T| #[trigger] f.ensures((x,), v) && action_closed(*old(rt), *x, *final(x), *final(rt), v, r, name@),
{
    let ctx = ActionContext::new(rt, host, name);
    let result = f(rt);
    ctx.end(rt, host)?;
    Ok(result)
}

/// Runs the closure inside an action named `run_in_action`.
pub fn run_in_action<T, H: Host, F: FnOnce(&mut MobxRuntime) -> T>(rt: &mut MobxRuntime, host: &H, f: F) -> (r:
    Result<T, Fault>)
    requires
        forall|x: &mut MobxRuntime| x.allows_reads() && x.allows_changes() ==> #[trigger] f.requires((x,)),
    ensures
        final(rt).allows_reads() == old(rt).allows_reads(),
        final(rt).allows_changes() == old(rt).allows_changes(),
        r matches Err(fault) ==> fault == Fault::BatchUnderflow,
        exists|x: &mut MobxRuntime, v: T| #[trigger] f.ensures((x,), v) && action_closed(*old(rt), *x, *final(x), *final(rt), v, r, "run_in_action"@),
{
    proof {
        reveal_strlit("run_in_action");
    }
    action(rt, host, String::from_str("run_in_action"), f)
}

/// A closure ran from `start` to `end` with state changes allowed and
/// otherwise on the runtime found in `before`; `after` is `end` with the
/// change setting of `before` put back.
pub open spec fn changes_allowed_run(before: MobxRuntime, start: MobxRuntime, end: MobxRuntime, after: MobxRuntime) -> bool {
    &&& start.allows_changes()
    &&& start.allows_reads() == before.allows_reads()
    &&& start.run_id_spec() == before.run_id_spec()
    &&& start.batch_spec() == before.batch_spec()
    &&& start.policy() == before.policy()
    &&& start.running() == before.running()
    &&& start.same_tables(&before)
    &&& after.allows_changes() == before.allows_changes()
    &&& after.allows_reads() == end.allows_reads()
    &&& after.run_id_spec() == end.run_id_spec()
    &&& after.batch_spec() == end.batch_spec()
    &&& after.policy() == end.policy()
    &&& after.running() == end.running()
    &&& after.same_tables(&end)
}

/// Runs the closure with state changes allowed, whatever the policy;
/// afterwards the change setting is the one found before. Returns what the
/// closure returned.
pub fn allow_state_changes<T, F: FnOnce(&mut MobxRuntime) -> T>(rt: &mut MobxRuntime, f: F) -> (r: T)
    requires
        forall|x: &mut MobxRuntime| x.allows_changes() ==> #[trigger] f.requires((x,)),
    ensures
        final(rt).allows_changes() == old(rt).allows_changes(),
        exists|x: &mut MobxRuntime| #[trigger] f.ensures((x,), r) && changes_allowed_run(*old(rt), *x, *final(x), *final(rt)),
{
    let guard = AllowStateChangesGuard::new(rt, true);
    let result = f(rt);
    guard.restore(rt);
    result
}

/// Configures the action enforcement policy.
pub fn set_enforce_actions(rt: &mut MobxRuntime, policy: ActionPolicy)
    ensures
        final(rt).policy() == enforce_of(policy),
        final(rt).allows_changes() == (policy == ActionPolicy::Never),
        final(rt).run_id_spec() == old(rt).run_id_spec(),
        final(rt).batch_spec() == old(rt).batch_spec(),
        final(rt).allows_reads() == old(rt).allows_reads(),
        final(rt).running() == old(rt).running(),
        final(rt).same_tables(old(rt)),
{
    rt.set_enforce_actions(EnforcePolicy::from(policy))
}

/// The configured enforcement policy.
pub fn enforce_actions_policy(rt: &MobxRuntime) -> (p: ActionPolicy)
    ensures
        p == action_of(rt.policy()),
{
    ActionPolicy::from(rt.enforce_actions_policy())
}

/// Hands back the strict-mode warnings produced since the last call.
pub fn drain_strict_mode_warnings(rt: &mut MobxRuntime) -> (r: Vec<String>)
    ensures
        r@.map_values(|s: String| s@) == old(rt).warnings(),
        final(rt).warnings() == Seq::<Seq<char>>::empty(),
        final(rt).same_scalars(old(rt)),
        final(rt).same_graph(old(rt)),
        final(rt).pending() == old(rt).pending(),
        final(rt).listeners() == old(rt).listeners(),
        final(rt).next_listener() == old(rt).next_listener(),
        final(rt).tracking() == old(rt).tracking(),
{
    rt.drain_strict_mode_warnings()
}

} // verus!

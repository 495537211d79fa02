//! Spy diagnostics: listeners that observe runtime events such as actions,
//! observable reads and writes, and reaction lifecycles.
use crate::host::Host;
use crate::runtime::MobxRuntime;
use vstd::prelude::*;

verus! {

/// Event emitted by the runtime for debugging or tooling purposes.
#[derive(Clone, Debug, PartialEq)]
pub enum SpyEvent {
    ActionStart { name: String },
    ActionEnd { name: String },
    ObservableRead { name: String },
    ObservableWrite { name: String },
    ReactionScheduled { name: String, reaction_id: u64 },
    ReactionRunStart { name: String, reaction_id: u64 },
    ReactionRunEnd { name: String, reaction_id: u64 },
    ReactionDisposed { name: String, reaction_id: u64 },
    ComputedStart { name: String, derivation_id: u64 },
    ComputedEnd { name: String, derivation_id: u64, changed: bool },
    StrictModeViolation { message: String },
}

/// The kind of a spy event, without its payload.
#[derive(Clone, Copy, Debug, PartialEq, Eq, Structural)]
pub enum SpyKind {
    ActionStart,
    ActionEnd,
    ObservableRead,
    ObservableWrite,
    ReactionScheduled,
    ReactionRunStart,
    ReactionRunEnd,
    ReactionDisposed,
    ComputedStart,
    ComputedEnd,
    StrictModeViolation,
}

/// The kind of an event.
pub open spec fn spy_kind(e: SpyEvent) -> SpyKind {
    match e {
        SpyEvent::ActionStart { .. } => SpyKind::ActionStart,
        SpyEvent::ActionEnd { .. } => SpyKind::ActionEnd,
        SpyEvent::ObservableRead { .. } => SpyKind::ObservableRead,
        SpyEvent::ObservableWrite { .. } => SpyKind::ObservableWrite,
        SpyEvent::ReactionScheduled { .. } => SpyKind::ReactionScheduled,
        SpyEvent::ReactionRunStart { .. } => SpyKind::ReactionRunStart,
        SpyEvent::ReactionRunEnd { .. } => SpyKind::ReactionRunEnd,
        SpyEvent::ReactionDisposed { .. } => SpyKind::ReactionDisposed,
        SpyEvent::ComputedStart { .. } => SpyKind::ComputedStart,
        SpyEvent::ComputedEnd { .. } => SpyKind::ComputedEnd,
        SpyEvent::StrictModeViolation { .. } => SpyKind::StrictModeViolation,
    }
}

/// The name an event carries (the message, for a strict-mode violation).
pub open spec fn event_name(e: SpyEvent) -> Seq<char> {
    match e {
        SpyEvent::ActionStart { name } => name@,
        SpyEvent::ActionEnd { name } => name@,
        SpyEvent::ObservableRead { name } => name@,
        SpyEvent::ObservableWrite { name } => name@,
        SpyEvent::ReactionScheduled { name, .. } => name@,
        SpyEvent::ReactionRunStart { name, .. } => name@,
        SpyEvent::ReactionRunEnd { name, .. } => name@,
        SpyEvent::ReactionDisposed { name, .. } => name@,
        SpyEvent::ComputedStart { name, .. } => name@,
        SpyEvent::ComputedEnd { name, .. } => name@,
        SpyEvent::StrictModeViolation { message } => message@,
    }
}

/// An event seen by its kind and name.
pub open spec fn event_view(e: SpyEvent) -> (SpyKind, Seq<char>) {
    (spy_kind(e), event_name(e))
}

/// Subscription handle returned from [`register`]; disposing it unregisters
/// the listener.
pub struct SpySubscription {
    id: u64,
    disposed: bool,
}

impl SpySubscription {
    /// The listener identifier.
    pub closed spec fn listener(&self) -> u64 {
        self.id
    }

    /// Whether the subscription was disposed.
    pub closed spec fn disposed(&self) -> bool {
        self.disposed
    }

    /// The listener identifier.
    pub fn id(&self) -> (r: u64)
        ensures
            r == self.listener(),
    {
        self.id
    }

    /// Unregisters the listener, once; later calls do nothing.
    pub fn dispose<H: Host>(&mut self, rt: &mut MobxRuntime, host: &H)
        ensures
            final(rt).spy_log() == old(rt).spy_log(),
            final(self).disposed(),
            final(self).listener() == old(self).listener(),
            !old(self).disposed() ==> {
                &&& old(rt).listeners().contains(old(self).listener()) ==> exists|i: int|
                    0 <= i < old(rt).listeners().len() && final(rt).listeners() == old(rt).listeners().remove(i)
                        && old(rt).listeners()[i] == old(self).listener()
                &&& !old(rt).listeners().contains(old(self).listener()) ==> final(rt).listeners()
                    == old(rt).listeners()
            },
            old(self).disposed() ==> final(rt).listeners() == old(rt).listeners(),
            old(rt).listeners_wf() ==> final(rt).listeners_wf(),
            final(rt).next_listener() == old(rt).next_listener(),
            final(rt).same_scalars(old(rt)),
            final(rt).same_graph(old(rt)),
            final(rt).pending() == old(rt).pending(),
            final(rt).warnings() == old(rt).warnings(),
    {
        if !self.disposed {
            rt.remove_spy_listener(self.id);
            host.release_spy_listener(self.id);
            self.disposed = true;
        }
    }

    /// Whether the subscription was disposed.
    pub fn is_disposed(&self) -> (r: bool)
        ensures
            r == self.disposed(),
    {
        self.disposed
    }
}

/// Registers a spy listener with the host and the runtime, and returns its
/// subscription. The listener receives every event reported until disposal.
pub fn register<H: Host>(rt: &mut MobxRuntime, host: &H, listener: H::Listener) -> (sub: SpySubscription)
    requires
        old(rt).next_listener() < u64::MAX,
    ensures
        final(rt).spy_log() == old(rt).spy_log(),
        sub.listener() == old(rt).next_listener(),
        !sub.disposed(),
        final(rt).listeners() == old(rt).listeners().push(sub.listener()),
        old(rt).listeners_wf() ==> final(rt).listeners_wf(),
        final(rt).next_listener() == old(rt).next_listener() + 1,
        final(rt).same_scalars(old(rt)),
        final(rt).same_graph(old(rt)),
        final(rt).pending() == old(rt).pending(),
        final(rt).warnings() == old(rt).warnings(),
{
    let id = rt.add_spy_listener();
    host.adopt_spy_listener(id, listener);
    SpySubscription { id, disposed: false }
}

/// Whether any spy listener is registered.
pub fn is_enabled(rt: &MobxRuntime) -> (r: bool)
    ensures
        r == (rt.listeners().len() > 0),
{
    rt.has_spy_listeners()
}

/// Hands the event to every registered listener, in registration order.
pub fn report<H: Host>(rt: &mut MobxRuntime, host: &H, event: SpyEvent)
    ensures
        *final(rt) == old(rt).with_event(event),
{
    emit_spy_event(rt, host, &event);
}

/// Hands the event to every registered listener, in registration order;
/// the event is logged with the listeners that received it, in the order
/// they received it.
pub fn emit_spy_event<H: Host>(rt: &mut MobxRuntime, host: &H, event: &SpyEvent)
    ensures
        *final(rt) == old(rt).with_event(*event),
{
    let listeners = rt.spy_listeners_snapshot();
    let mut delivered: Ghost<(Seq<u64>, SpyEvent)> = Ghost((Seq::empty(), *event));
    proof {
        assert(listeners@.take(0) =~= Seq::<u64>::empty());
    }
    let mut i: usize = 0;
    while i < listeners.len()
        invariant
            0 <= i <= listeners.len(),
            delivered@ == (listeners@.take(i as int), *event),
        decreases listeners.len() - i,
    {
        delivered = deliver(host, listeners[i], event, delivered);
        proof {
            assert(listeners@.take(i + 1) =~= listeners@.take(i as int).push(listeners@[i as int]));
        }
        i = i + 1;
    }
    proof {
        assert(listeners@.take(listeners@.len() as int) =~= listeners@);
    }
    rt.spy_log = Ghost(rt.spy_log@.push(delivered@));
}

/// Hands the event to one listener, through the host. `delivered` holds the
/// listeners that received an event before, and that event; it comes back
/// with this listener appended and this event.
fn deliver<H: Host>(host: &H, listener: u64, event: &SpyEvent, delivered: Ghost<(Seq<u64>, SpyEvent)>) -> (r: Ghost<
    (Seq<u64>, SpyEvent),
>)
    requires
        delivered@.0.len() > 0 ==> delivered@.1 == *event,
    ensures
        r@ == (delivered@.0.push(listener), *event),
{
    host.deliver_spy_event(listener, event);
    Ghost((delivered@.0.push(listener), *event))
}

/// Reporting an event hands it to each listener registered at that moment,
/// in registration order, and to no other; the earlier log is kept, and
/// nothing but the log changes.
pub proof fn law_event_reaches_every_listener(before: MobxRuntime, after: MobxRuntime, event: SpyEvent)
    requires
        after == before.with_event(event),
    ensures
        after.spy_log().len() == before.spy_log().len() + 1,
        after.spy_log().take(before.spy_log().len() as int) == before.spy_log(),
        after.spy_log().last() == (before.listeners(), event),
        forall|l: u64| #[trigger] after.spy_log().last().0.contains(l) <==> before.listeners().contains(l),
        after.same_but_log(&before),
{
    assert(after.spy_log().take(before.spy_log().len() as int) =~= before.spy_log());
}

} // verus!

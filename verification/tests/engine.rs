use mobx_rs::action::{action, drain_strict_mode_warnings, set_enforce_actions, ActionPolicy};
use mobx_rs::derivation::{track_derived_function, DerivationState};
use mobx_rs::host::Host;
use mobx_rs::ids::{DerivationId, ObservableId, ReactionId};
use mobx_rs::reaction::{autorun, create_reaction, run_pending_reactions, ReactionOptions};
use mobx_rs::runtime::{has_pending_reactions, next_pending_reaction, enqueue_reaction, Fault, MobxRuntime};
use mobx_rs::spy::{register, SpyEvent};
use std::cell::{Cell, RefCell};
use std::collections::HashMap;
use std::rc::Rc;

type Effect = Box<dyn FnMut(&mut MobxRuntime, &TestHost)>;
type Getter = Box<dyn Fn(&mut MobxRuntime, &TestHost) -> i64>;
type Listener = Box<dyn FnMut(&SpyEvent)>;

/// A host that keeps closures in maps, the way an embedding would.
#[derive(Default)]
struct TestHost {
    effects: RefCell<HashMap<ReactionId, Effect>>,
    getters: RefCell<HashMap<DerivationId, Getter>>,
    values: RefCell<HashMap<DerivationId, i64>>,
    listeners: RefCell<HashMap<u64, Listener>>,
    observed_calls: RefCell<HashMap<ObservableId, usize>>,
    unobserved_calls: RefCell<HashMap<ObservableId, usize>>,
    discarded: RefCell<Vec<DerivationId>>,
    warnings: RefCell<Vec<String>>,
}

impl TestHost {
    fn set_getter(&self, c: DerivationId, getter: impl Fn(&mut MobxRuntime, &TestHost) -> i64 + 'static) {
        self.getters.borrow_mut().insert(c, Box::new(getter));
    }

    fn value(&self, c: DerivationId) -> Option<i64> {
        self.values.borrow().get(&c).copied()
    }

    fn observed(&self, o: ObservableId) -> usize {
        self.observed_calls.borrow().get(&o).copied().unwrap_or(0)
    }

    fn unobserved(&self, o: ObservableId) -> usize {
        self.unobserved_calls.borrow().get(&o).copied().unwrap_or(0)
    }
}

impl Host for TestHost {
    type Effect = Effect;
    type Listener = Listener;

    fn adopt_reaction_effect(&self, reaction: ReactionId, effect: Effect) {
        self.effects.borrow_mut().insert(reaction, effect);
    }

    fn adopt_spy_listener(&self, listener: u64, callback: Listener) {
        self.listeners.borrow_mut().insert(listener, callback);
    }

    fn release_spy_listener(&self, listener: u64) {
        self.listeners.borrow_mut().remove(&listener);
    }

    fn run_reaction_effect(&self, rt: &mut MobxRuntime, reaction: ReactionId) {
        let effect = self.effects.borrow_mut().remove(&reaction);
        if let Some(mut effect) = effect {
            effect(rt, self);
            self.effects.borrow_mut().entry(reaction).or_insert(effect);
        }
    }

    fn evaluate_computed(&self, rt: &mut MobxRuntime, computed: DerivationId) -> bool {
        let getter = self.getters.borrow_mut().remove(&computed);
        let Some(getter) = getter else {
            return false;
        };
        let value = getter(rt, self);
        self.getters.borrow_mut().insert(computed, getter);
        let previous = self.values.borrow_mut().insert(computed, value);
        previous != Some(value)
    }

    fn discard_computed_value(&self, computed: DerivationId) {
        self.values.borrow_mut().remove(&computed);
        self.discarded.borrow_mut().push(computed);
    }

    fn observation_changed(&self, observable: ObservableId, observed: bool) {
        let map = if observed { &self.observed_calls } else { &self.unobserved_calls };
        *map.borrow_mut().entry(observable).or_insert(0) += 1;
    }

    fn deliver_spy_event(&self, listener: u64, event: &SpyEvent) {
        if let Some(callback) = self.listeners.borrow_mut().get_mut(&listener) {
            callback(event);
        }
    }

    fn report_strict_mode_warning(&self, message: &str) {
        self.warnings.borrow_mut().push(message.to_string());
    }
}

fn get_computed(rt: &mut MobxRuntime, host: &TestHost, c: DerivationId) -> i64 {
    rt.computed_get(host, c).unwrap();
    host.value(c).expect("computed value should be initialized after compute")
}

fn reaction_derivation(rt: &MobxRuntime, r: ReactionId) -> DerivationId {
    rt.reaction_derivation(r).unwrap()
}

fn capture_events(rt: &mut MobxRuntime, host: &TestHost) -> (Rc<RefCell<Vec<SpyEvent>>>, mobx_rs::spy::SpySubscription) {
    let captured = Rc::new(RefCell::new(Vec::new()));
    let sink = Rc::clone(&captured);
    let subscription = register(rt, host, Box::new(move |event: &SpyEvent| sink.borrow_mut().push(event.clone())));
    (captured, subscription)
}

#[test]
fn test_computed_tracks_and_recomputes() {
    let mut rt = MobxRuntime::new();
    let host = TestHost::default();
    let source = rt.create_atom("observable_box".to_string()).unwrap();
    let value = Rc::new(Cell::new(1i64));
    let compute_count = Rc::new(Cell::new(0u32));

    let c = rt.create_computed(None, false, false).unwrap();
    let (count, v) = (Rc::clone(&compute_count), Rc::clone(&value));
    host.set_getter(c, move |rt, host| {
        count.set(count.get() + 1);
        rt.report_observed(host, source).unwrap();
        v.get() * 2
    });

    assert_eq!(get_computed(&mut rt, &host, c), 2);
    assert_eq!(compute_count.get(), 1);

    // Cache should be reused without recomputing.
    assert_eq!(get_computed(&mut rt, &host, c), 2);
    assert_eq!(compute_count.get(), 1);

    value.set(3);
    rt.report_changed(&host, source).unwrap();
    assert_eq!(get_computed(&mut rt, &host, c), 6);
    assert_eq!(compute_count.get(), 2);
}

#[test]
fn test_computed_set_without_setter_fails() {
    let mut rt = MobxRuntime::new();
    let c = rt.create_computed(None, false, false).unwrap();
    let err = rt.computed_set_outcome(c, false).unwrap_err();
    assert!(err.name().starts_with("Computed@"), "expected computed name to follow Computed@* pattern, got {}", err.name());
}

#[test]
fn computed_set_with_setter_succeeds() {
    let mut rt = MobxRuntime::new();
    let c = rt.create_computed(Some("double".to_string()), false, false).unwrap();
    assert!(rt.computed_set_outcome(c, true).is_ok());
    let err = rt.computed_set_outcome(c, false).unwrap_err();
    assert_eq!(err.name(), "double");
    assert_eq!(err.message(), "computed value `double` does not provide a setter");
}

#[test]
fn test_track_collects_observables() {
    let mut rt = MobxRuntime::new();
    let host = TestHost::default();
    let atom = rt.create_atom("atom".to_string()).unwrap();
    let r = rt.create_reaction(Some("derivation".to_string()), false).unwrap();
    let d = reaction_derivation(&rt, r);

    let value = track_derived_function(&mut rt, &host, d, |rt: &mut MobxRuntime| {
        assert!(rt.report_observed(&host, atom).unwrap());
        42
    })
    .unwrap();

    assert_eq!(value, 42);
    assert_eq!(rt.derivation_observing(d), vec![atom]);
    assert_eq!(rt.observers(atom), vec![d]);
}

#[test]
fn test_track_deduplicates_dependencies() {
    let mut rt = MobxRuntime::new();
    let host = TestHost::default();
    let atom = rt.create_atom("atom".to_string()).unwrap();
    let r = rt.create_reaction(Some("dedupe".to_string()), false).unwrap();
    let d = reaction_derivation(&rt, r);

    track_derived_function(&mut rt, &host, d, |rt: &mut MobxRuntime| {
        rt.report_observed(&host, atom).unwrap();
        rt.report_observed(&host, atom).unwrap();
    })
    .unwrap();

    assert_eq!(rt.derivation_observing(d), vec![atom]);
}

#[test]
fn test_bind_dependencies_removes_stale_observers() {
    let mut rt = MobxRuntime::new();
    let host = TestHost::default();
    let atom_a = rt.create_atom("atom_a".to_string()).unwrap();
    let atom_b = rt.create_atom("atom_b".to_string()).unwrap();
    let r = rt.create_reaction(Some("switch".to_string()), false).unwrap();
    let d = reaction_derivation(&rt, r);

    track_derived_function(&mut rt, &host, d, |rt: &mut MobxRuntime| {
        rt.report_observed(&host, atom_a).unwrap();
    })
    .unwrap();
    track_derived_function(&mut rt, &host, d, |rt: &mut MobxRuntime| {
        rt.report_observed(&host, atom_b).unwrap();
    })
    .unwrap();

    assert!(rt.observers(atom_a).is_empty());
    assert_eq!(rt.observers(atom_b), vec![d]);
    assert_eq!(rt.derivation_observing(d), vec![atom_b]);
}

#[test]
fn test_should_compute_follows_state() {
    let mut rt = MobxRuntime::new();
    let r = rt.create_reaction(Some("compute".to_string()), false).unwrap();
    let d = reaction_derivation(&rt, r);

    rt.set_derivation_state(d, DerivationState::UpToDate);
    assert!(!rt.should_compute(d));

    rt.set_derivation_state(d, DerivationState::NotTracking);
    assert!(rt.should_compute(d));

    rt.set_derivation_state(d, DerivationState::Stale);
    assert!(rt.should_compute(d));

    rt.set_derivation_state(d, DerivationState::PossiblyStale);
    assert!(rt.should_compute(d));
    assert_eq!(rt.derivation_state(d), Some(DerivationState::Stale));
}

#[test]
fn test_report_observed_triggers_callback_once() {
    let mut rt = MobxRuntime::new();
    let host = TestHost::default();
    let atom = rt.create_atom("atom".to_string()).unwrap();

    assert_eq!(host.observed(atom), 0);
    assert!(rt.report_observed(&host, atom).unwrap());
    assert!(rt.is_being_observed(atom));
    assert_eq!(host.observed(atom), 1);

    // Subsequent observations should not retrigger the hook.
    assert!(rt.report_observed(&host, atom).unwrap());
    assert_eq!(host.observed(atom), 1);
}

#[test]
fn test_add_and_remove_observer_updates_state() {
    let mut rt = MobxRuntime::new();
    let host = TestHost::default();
    let atom = rt.create_atom("atom".to_string()).unwrap();
    let derivation_id = DerivationId::try_from_raw(1).unwrap();

    rt.report_observed(&host, atom).unwrap();
    rt.attach_observer(atom, derivation_id);
    assert!(rt.is_being_observed(atom));

    rt.attach_observer(atom, derivation_id);
    assert_eq!(rt.observers(atom).len(), 1);

    rt.remove_observer(&host, atom, derivation_id).unwrap();
    assert!(!rt.is_being_observed(atom));
    assert!(rt.is_pending_unobservation(atom));
    assert_eq!(host.unobserved(atom), 1);
    assert_eq!(host.observed(atom), 1);
}

#[test]
fn test_report_changed_updates_diff_and_state() {
    let mut rt = MobxRuntime::new();
    let host = TestHost::default();
    let atom = rt.create_atom("atom".to_string()).unwrap();
    let before = rt.observable_diff_value(atom).unwrap();
    rt.report_changed(&host, atom).unwrap();
    assert_eq!(rt.observable_diff_value(atom), Some(before.wrapping_add(1)));
    assert_eq!(rt.lowest_observer_state(atom), Some(DerivationState::Stale));
}

#[test]
fn test_observable_ids_are_unique() {
    let mut rt = MobxRuntime::new();
    let a = rt.create_atom("atom_a".to_string()).unwrap();
    let b = rt.create_atom("atom_b".to_string()).unwrap();
    assert_ne!(a, b);
}

#[test]
fn test_reaction_tracks_dependencies_and_runs() {
    let mut rt = MobxRuntime::new();
    let host = TestHost::default();
    let atom = rt.create_atom("reaction_atom".to_string()).unwrap();
    let counter = Rc::new(Cell::new(0));
    let counter_clone = Rc::clone(&counter);

    let handle = autorun(
        &mut rt,
        &host,
        Box::new(move |rt: &mut MobxRuntime, host: &TestHost| {
            rt.report_observed(host, atom).unwrap();
            counter_clone.set(counter_clone.get() + 1);
        }),
    )
    .unwrap();

    assert_eq!(counter.get(), 1);

    rt.report_changed(&host, atom).unwrap();
    run_pending_reactions(&mut rt, &host).unwrap();
    assert_eq!(counter.get(), 2);

    handle.dispose(&mut rt, &host).unwrap();
    rt.report_changed(&host, atom).unwrap();
    run_pending_reactions(&mut rt, &host).unwrap();
    assert_eq!(counter.get(), 2);
}

#[test]
fn test_schedule_deduplicates_pending_reactions() {
    let mut rt = MobxRuntime::new();
    let reaction_id = ReactionId::try_from_raw(1).expect("non-zero id");
    enqueue_reaction(&mut rt, reaction_id);
    enqueue_reaction(&mut rt, reaction_id);

    let mut count = 0;
    while next_pending_reaction(&mut rt).is_some() {
        count += 1;
    }

    assert_eq!(count, 1);
    assert!(!has_pending_reactions(&rt));
}

#[test]
fn test_spy_receives_action_and_observable_events() {
    let mut rt = MobxRuntime::new();
    let host = TestHost::default();
    drain_strict_mode_warnings(&mut rt);
    let (captured, mut subscription) = capture_events(&mut rt, &host);

    let atom = rt.create_atom("spy_atom".to_string()).unwrap();
    action(&mut rt, &host, "spy_action".to_string(), |rt: &mut MobxRuntime| {
        rt.report_observed(&host, atom).unwrap();
        rt.report_changed(&host, atom).unwrap();
    })
    .unwrap();

    subscription.dispose(&mut rt, &host);

    let events = captured.borrow();
    assert!(events.iter().any(|event| matches!(event, SpyEvent::ActionStart { name } if name == "spy_action")));
    assert!(events.iter().any(|event| matches!(event, SpyEvent::ActionEnd { name } if name == "spy_action")));
    assert!(events.iter().any(|event| matches!(event, SpyEvent::ObservableRead { name } if name == "spy_atom")));
    assert!(events.iter().any(|event| matches!(event, SpyEvent::ObservableWrite { name } if name == "spy_atom")));
}

#[test]
fn test_spy_tracks_reaction_lifecycle() {
    let mut rt = MobxRuntime::new();
    let host = TestHost::default();
    let (captured, mut subscription) = capture_events(&mut rt, &host);

    let atom = rt.create_atom("reaction_atom".to_string()).unwrap();
    let counter = Rc::new(Cell::new(0));
    let counter_clone = Rc::clone(&counter);
    let handle = autorun(
        &mut rt,
        &host,
        Box::new(move |rt: &mut MobxRuntime, host: &TestHost| {
            rt.report_observed(host, atom).unwrap();
            counter_clone.set(counter_clone.get() + 1);
        }),
    )
    .unwrap();

    rt.report_changed(&host, atom).unwrap();
    run_pending_reactions(&mut rt, &host).unwrap();
    handle.dispose(&mut rt, &host).unwrap();
    subscription.dispose(&mut rt, &host);

    let events = captured.borrow();
    assert!(matches!(events.first(), Some(SpyEvent::ReactionRunStart { .. })));
    assert!(events.iter().any(|event| matches!(event, SpyEvent::ReactionScheduled { .. })));
    assert!(events.iter().any(|event| matches!(event, SpyEvent::ReactionRunEnd { .. })));
    assert!(events.iter().any(|event| matches!(event, SpyEvent::ObservableWrite { name } if name == "reaction_atom")));
    assert!(events.iter().any(|event| matches!(event, SpyEvent::ObservableRead { .. })));
}

#[test]
fn test_strict_mode_violation_emits_event() {
    let mut rt = MobxRuntime::new();
    let host = TestHost::default();
    let (captured, mut subscription) = capture_events(&mut rt, &host);

    set_enforce_actions(&mut rt, ActionPolicy::Always);
    drain_strict_mode_warnings(&mut rt);

    let atom = rt.create_atom("strict_atom".to_string()).unwrap();
    rt.report_changed(&host, atom).unwrap();

    subscription.dispose(&mut rt, &host);
    set_enforce_actions(&mut rt, ActionPolicy::Never);

    let events = captured.borrow();
    assert!(events
        .iter()
        .any(|event| matches!(event, SpyEvent::StrictModeViolation { message } if message.contains("strict_atom"))));
    assert_eq!(host.warnings.borrow().len(), 1);
}

#[test]
fn strict_mode_warning_message_is_exact() {
    let mut rt = MobxRuntime::new();
    let host = TestHost::default();
    set_enforce_actions(&mut rt, ActionPolicy::Observed);
    let atom = rt.create_atom("watched".to_string()).unwrap();
    // Unobserved: allowed under `Observed`.
    rt.report_changed(&host, atom).unwrap();
    assert!(drain_strict_mode_warnings(&mut rt).is_empty());
    rt.report_observed(&host, atom).unwrap();
    rt.report_changed(&host, atom).unwrap();
    assert_eq!(
        drain_strict_mode_warnings(&mut rt),
        vec!["strict mode (observed) violation: observable `watched` was modified outside an action".to_string()]
    );
}

#[test]
fn reaction_default_name_uses_its_identifier() {
    let mut rt = MobxRuntime::new();
    let r = rt.create_reaction(None, false).unwrap();
    assert_eq!(rt.reaction_name(r), format!("Reaction@{}", r.get()));
    let c = rt.create_computed(None, false, false).unwrap();
    assert_eq!(rt.derivation_name(c), format!("Computed@{}", c.get()));
}

#[test]
fn reaction_rerun_follows_changed_dependencies() {
    let mut rt = MobxRuntime::new();
    let host = TestHost::default();
    let toggle = rt.create_atom("toggle".to_string()).unwrap();
    let left = rt.create_atom("left".to_string()).unwrap();
    let right = rt.create_atom("right".to_string()).unwrap();
    let use_left = Rc::new(Cell::new(true));
    let runs = Rc::new(Cell::new(0));
    let (flag, count) = (Rc::clone(&use_left), Rc::clone(&runs));
    let handle = autorun(
        &mut rt,
        &host,
        Box::new(move |rt: &mut MobxRuntime, host: &TestHost| {
            count.set(count.get() + 1);
            rt.report_observed(host, toggle).unwrap();
            let side = if flag.get() { left } else { right };
            rt.report_observed(host, side).unwrap();
        }),
    )
    .unwrap();
    assert_eq!(runs.get(), 1);
    let d = rt.reaction_derivation(handle.id()).unwrap();
    assert_eq!(rt.derivation_observing(d), vec![toggle, left]);

    use_left.set(false);
    rt.report_changed(&host, toggle).unwrap();
    assert_eq!(runs.get(), 2);
    assert_eq!(rt.derivation_observing(d), vec![toggle, right]);
    assert!(rt.observers(left).is_empty());
    assert_eq!(host.unobserved(left), 1);

    // A change to the dropped dependency no longer reruns the reaction.
    rt.report_changed(&host, left).unwrap();
    assert_eq!(runs.get(), 2);
    rt.report_changed(&host, right).unwrap();
    assert_eq!(runs.get(), 3);
}

#[test]
fn each_change_reruns_the_reaction_at_once_even_inside_an_action() {
    let mut rt = MobxRuntime::new();
    let host = TestHost::default();
    let a = rt.create_atom("a".to_string()).unwrap();
    let runs = Rc::new(Cell::new(0));
    let count = Rc::clone(&runs);
    autorun(
        &mut rt,
        &host,
        Box::new(move |rt: &mut MobxRuntime, host: &TestHost| {
            count.set(count.get() + 1);
            rt.report_observed(host, a).unwrap();
        }),
    )
    .unwrap();
    assert_eq!(runs.get(), 1);
    action(&mut rt, &host, "twice".to_string(), |rt: &mut MobxRuntime| {
        rt.report_changed(&host, a).unwrap();
        rt.report_changed(&host, a).unwrap();
    })
    .unwrap();
    assert_eq!(runs.get(), 3);
    assert!(!has_pending_reactions(&rt));
}

#[test]
fn reaction_requiring_an_observable_is_disposed_when_it_tracks_none() {
    let mut rt = MobxRuntime::new();
    let host = TestHost::default();
    let handle = create_reaction(
        &mut rt,
        &host,
        ReactionOptions::new(Box::new(|_: &mut MobxRuntime, _: &TestHost| {}) as Effect)
            .name("lonely".to_string())
            .requires_observable(true),
    )
    .unwrap();
    assert!(!handle.is_disposed(&rt));
    handle.run_now(&mut rt, &host).unwrap();
    assert!(handle.is_disposed(&rt));
    assert_eq!(rt.reaction_name(handle.id()), "lonely");
}

#[test]
fn recursive_reaction_run_is_a_fault() {
    let mut rt = MobxRuntime::new();
    let host = TestHost::default();
    let seen = Rc::new(RefCell::new(None));
    let slot = Rc::clone(&seen);
    let handle = create_reaction(
        &mut rt,
        &host,
        ReactionOptions::new(Box::new(move |rt: &mut MobxRuntime, host: &TestHost| {
            let me = ReactionId::try_from_raw(1).unwrap();
            *slot.borrow_mut() = Some(rt.run_reaction(host, me));
        }) as Effect)
        .name("selfish".to_string()),
    )
    .unwrap();
    assert_eq!(handle.id().get(), 1);
    handle.run_now(&mut rt, &host).unwrap();
    assert_eq!(*seen.borrow(), Some(Err(Fault::RecursiveReaction("selfish".to_string()))));
}

#[test]
fn recursive_computation_is_a_fault() {
    let mut rt = MobxRuntime::new();
    let host = TestHost::default();
    let c = rt.create_computed(Some("loop".to_string()), false, false).unwrap();
    let seen = Rc::new(RefCell::new(None));
    let slot = Rc::clone(&seen);
    host.set_getter(c, move |rt, host| {
        rt.set_derivation_state(c, DerivationState::Stale);
        *slot.borrow_mut() = Some(rt.computed_get(host, c));
        1
    });
    rt.computed_get(&host, c).unwrap();
    assert_eq!(*seen.borrow(), Some(Err(Fault::RecursiveComputation("loop".to_string()))));
}

#[test]
fn computed_without_observers_is_suspended_after_reading() {
    let mut rt = MobxRuntime::new();
    let host = TestHost::default();
    let source = rt.create_atom("source".to_string()).unwrap();
    let c = rt.create_computed(Some("derived".to_string()), false, false).unwrap();
    host.set_getter(c, move |rt, host| {
        rt.report_observed(host, source).unwrap();
        5
    });
    let o = rt.computed_observable(c).unwrap();
    assert_eq!(get_computed(&mut rt, &host, c), 5);
    assert_eq!(rt.observers(source), vec![c]);
    // The computed value counts as observed once read.
    assert!(rt.is_being_observed(o));

    // A reaction observing the computed value, then disposed, releases it.
    let handle = autorun(
        &mut rt,
        &host,
        Box::new(move |rt: &mut MobxRuntime, host: &TestHost| {
            rt.computed_get(host, c).unwrap();
        }),
    )
    .unwrap();
    let d = rt.reaction_derivation(handle.id()).unwrap();
    assert_eq!(rt.observers(o), vec![d]);
    handle.dispose(&mut rt, &host).unwrap();
    assert!(rt.observers(o).is_empty());
    assert_eq!(rt.derivation_state(c), Some(DerivationState::NotTracking));
    assert!(rt.observers(source).is_empty());
    assert_eq!(host.discarded.borrow().as_slice(), &[c]);
}

#[test]
fn keep_alive_computed_is_not_suspended() {
    let mut rt = MobxRuntime::new();
    let host = TestHost::default();
    let c = rt.create_computed(Some("kept".to_string()), true, false).unwrap();
    host.set_getter(c, |_, _| 9);
    assert_eq!(get_computed(&mut rt, &host, c), 9);
    assert_eq!(rt.derivation_state(c), Some(DerivationState::UpToDate));
    assert!(host.discarded.borrow().is_empty());
}

#[test]
fn scheduling_a_disposed_reaction_does_nothing() {
    let mut rt = MobxRuntime::new();
    let host = TestHost::default();
    let runs = Rc::new(Cell::new(0));
    let count = Rc::clone(&runs);
    let handle = autorun(
        &mut rt,
        &host,
        Box::new(move |_: &mut MobxRuntime, _: &TestHost| count.set(count.get() + 1)),
    )
    .unwrap();
    assert_eq!(runs.get(), 1);
    handle.schedule(&mut rt, &host).unwrap();
    assert_eq!(runs.get(), 2);
    handle.dispose(&mut rt, &host).unwrap();
    handle.schedule(&mut rt, &host).unwrap();
    handle.run_now(&mut rt, &host).unwrap();
    assert_eq!(runs.get(), 2);
    assert!(!rt.is_reaction_scheduled(handle.id()));
}

#[test]
fn batch_underflow_is_reported() {
    let mut rt = MobxRuntime::new();
    let guard = mobx_rs::runtime::start_batch(&mut rt);
    rt.reset();
    assert_eq!(guard.end(&mut rt), Err(Fault::BatchUnderflow));
}

/// Assigns to the computed value the way an embedding does: runs its setter
/// when it has one, and lets the runtime decide the outcome.
fn set_computed(
    rt: &MobxRuntime,
    c: DerivationId,
    setter: Option<&dyn Fn(i64)>,
    value: i64,
) -> Result<(), mobx_rs::computed::ComputedSetError> {
    if let Some(setter) = setter {
        setter(value);
    }
    rt.computed_set_outcome(c, setter.is_some())
}

#[test]
fn test_computed_setter_invocation() {
    let mut rt = MobxRuntime::new();
    let host = TestHost::default();
    let sink = Rc::new(Cell::new(0));
    let sink_clone = Rc::clone(&sink);
    let c = rt.create_computed(None, false, false).unwrap();
    host.set_getter(c, |_, _| 7);
    let setter = move |value: i64| sink_clone.set(value);

    set_computed(&rt, c, Some(&setter), 42).unwrap();
    assert_eq!(sink.get(), 42);
}

#[test]
fn test_computed_public_api_can_get_and_set() {
    let mut rt = MobxRuntime::new();
    let host = TestHost::default();
    let backing = Rc::new(Cell::new(0i64));
    let backing_for_get = Rc::clone(&backing);
    let backing_for_set = Rc::clone(&backing);
    let c = rt.create_computed(Some("double".to_string()), false, false).unwrap();
    host.set_getter(c, move |_, _| backing_for_get.get() * 2);
    let setter = move |value: i64| backing_for_set.set(value);

    assert_eq!(get_computed(&mut rt, &host, c), 0);
    set_computed(&rt, c, Some(&setter), 21).unwrap();
    assert_eq!(backing.get(), 21);
}

#[test]
fn test_computed_without_setter_returns_error() {
    let mut rt = MobxRuntime::new();
    let host = TestHost::default();
    let c = rt.create_computed(None, false, false).unwrap();
    host.set_getter(c, |_, _| 5);
    let err = set_computed(&rt, c, None, 10).expect_err("expected setter error");
    assert!(err.name().starts_with("Computed@"));
}

#[test]
fn beginning_an_atom_change_records_the_violation_and_enters_a_batch() {
    let mut rt = MobxRuntime::new();
    let host = TestHost::default();
    set_enforce_actions(&mut rt, ActionPolicy::Always);
    let atom = rt.create_atom("guarded".to_string()).unwrap();
    rt.begin_atom_change(&host, atom);
    assert_eq!(rt.batch_depth(), 1);
    assert_eq!(rt.observable_diff_value(atom), Some(1));
    assert_eq!(rt.lowest_observer_state(atom), Some(DerivationState::Stale));
    assert_eq!(
        drain_strict_mode_warnings(&mut rt),
        vec!["strict mode (always) violation: observable `guarded` was modified outside an action".to_string()]
    );
    assert_eq!(host.warnings.borrow().len(), 1);
}

#[test]
fn queuing_a_reaction_marks_it_scheduled_without_running_it() {
    let mut rt = MobxRuntime::new();
    let host = TestHost::default();
    let runs = Rc::new(Cell::new(0));
    let count = Rc::clone(&runs);
    let handle = create_reaction(
        &mut rt,
        &host,
        ReactionOptions::new(Box::new(move |_: &mut MobxRuntime, _: &TestHost| count.set(count.get() + 1)) as Effect),
    )
    .unwrap();
    rt.queue_reaction(&host, handle.id());
    assert!(rt.is_reaction_scheduled(handle.id()));
    assert!(has_pending_reactions(&rt));
    assert_eq!(runs.get(), 0);
    run_pending_reactions(&mut rt, &host).unwrap();
    assert_eq!(runs.get(), 1);
    assert!(!rt.is_reaction_scheduled(handle.id()));
    assert!(!has_pending_reactions(&rt));
}

#[test]
fn autorun_leaves_tracking_and_read_permission_as_found() {
    let mut rt = MobxRuntime::new();
    let host = TestHost::default();
    let atom = rt.create_atom("closing_atom".to_string()).unwrap();
    let handle = autorun(
        &mut rt,
        &host,
        Box::new(move |rt: &mut MobxRuntime, host: &TestHost| {
            rt.report_observed(host, atom).unwrap();
        }),
    )
    .unwrap();
    let d = reaction_derivation(&rt, handle.id());
    assert_eq!(rt.tracking_derivation(), None);
    assert!(mobx_rs::runtime::state_reads_allowed(&rt));
    assert_eq!(rt.derivation_state(d), Some(DerivationState::UpToDate));
    assert_eq!(rt.derivation_observing(d), vec![atom]);
}

#[test]
fn disposing_a_reaction_clears_its_derivation() {
    let mut rt = MobxRuntime::new();
    let host = TestHost::default();
    let atom = rt.create_atom("disposed_atom".to_string()).unwrap();
    let handle = autorun(
        &mut rt,
        &host,
        Box::new(move |rt: &mut MobxRuntime, host: &TestHost| {
            rt.report_observed(host, atom).unwrap();
        }),
    )
    .unwrap();
    let d = reaction_derivation(&rt, handle.id());
    handle.dispose(&mut rt, &host).unwrap();
    assert!(rt.derivation_observing(d).is_empty());
    assert_eq!(rt.derivation_state(d), Some(DerivationState::NotTracking));
    assert!(rt.observers(atom).is_empty());
}

#[test]
fn flushing_an_empty_queue_changes_nothing() {
    let mut rt = MobxRuntime::new();
    let host = TestHost::default();
    assert_eq!(run_pending_reactions(&mut rt, &host), Ok(()));
    assert!(!rt.is_running_reactions());
    assert!(!has_pending_reactions(&rt));
}

#[test]
fn changing_an_unobserved_atom_outside_an_action_records_one_warning() {
    let mut rt = MobxRuntime::new();
    let host = TestHost::default();
    set_enforce_actions(&mut rt, ActionPolicy::Always);
    let atom = rt.create_atom("lonely_atom".to_string()).unwrap();
    rt.report_changed(&host, atom).unwrap();
    let warnings = drain_strict_mode_warnings(&mut rt);
    assert_eq!(warnings.len(), 1);
    assert!(warnings[0].contains("lonely_atom"));
    assert_eq!(rt.batch_depth(), 0);
}

#[test]
fn a_flush_step_runs_the_head_of_the_queue() {
    let mut rt = MobxRuntime::new();
    let host = TestHost::default();
    let runs = Rc::new(RefCell::new(Vec::new()));
    let first_log = Rc::clone(&runs);
    let second_log = Rc::clone(&runs);
    let first = create_reaction(
        &mut rt,
        &host,
        ReactionOptions::new(Box::new(move |_: &mut MobxRuntime, _: &TestHost| first_log.borrow_mut().push(1))),
    )
    .unwrap();
    let second = create_reaction(
        &mut rt,
        &host,
        ReactionOptions::new(Box::new(move |_: &mut MobxRuntime, _: &TestHost| second_log.borrow_mut().push(2))),
    )
    .unwrap();
    enqueue_reaction(&mut rt, second.id());
    enqueue_reaction(&mut rt, first.id());
    assert_eq!(rt.run_next_pending_reaction(&host), Ok(Some(second.id())));
    assert_eq!(*runs.borrow(), vec![2]);
    assert_eq!(rt.run_next_pending_reaction(&host), Ok(Some(first.id())));
    assert_eq!(*runs.borrow(), vec![2, 1]);
    assert_eq!(rt.run_next_pending_reaction(&host), Ok(None));
}

#[test]
fn flushing_only_disposed_reactions_succeeds() {
    let mut rt = MobxRuntime::new();
    let host = TestHost::default();
    let handle = create_reaction(
        &mut rt,
        &host,
        ReactionOptions::new(Box::new(|_: &mut MobxRuntime, _: &TestHost| panic!("a disposed reaction ran"))),
    )
    .unwrap();
    handle.dispose(&mut rt, &host).unwrap();
    enqueue_reaction(&mut rt, handle.id());
    assert_eq!(run_pending_reactions(&mut rt, &host), Ok(()));
    assert!(!has_pending_reactions(&rt));
}

use mobx_rs::action::{
    action, allow_state_changes, drain_strict_mode_warnings, enforce_actions_policy, run_in_action,
    set_enforce_actions, ActionContext, ActionPolicy,
};
use mobx_rs::host::Host;
use mobx_rs::ids::{DerivationId, ObservableId, ReactionId};
use mobx_rs::runtime::{batch_depth, state_changes_allowed, state_reads_allowed, EnforcePolicy, MobxRuntime};
use mobx_rs::spy::{register, SpyEvent};
use std::cell::RefCell;

#[derive(Default)]
struct RecordingHost {
    events: RefCell<Vec<SpyEvent>>,
}

impl Host for RecordingHost {
    type Effect = ();
    type Listener = ();
    fn adopt_reaction_effect(&self, _reaction: ReactionId, _effect: ()) {}
    fn adopt_spy_listener(&self, _listener: u64, _callback: ()) {}
    fn release_spy_listener(&self, _listener: u64) {}
    fn run_reaction_effect(&self, _rt: &mut MobxRuntime, _reaction: ReactionId) {}
    fn evaluate_computed(&self, _rt: &mut MobxRuntime, _computed: DerivationId) -> bool {
        false
    }
    fn discard_computed_value(&self, _computed: DerivationId) {}
    fn observation_changed(&self, _observable: ObservableId, _observed: bool) {}
    fn deliver_spy_event(&self, _listener: u64, event: &SpyEvent) {
        self.events.borrow_mut().push(event.clone());
    }
    fn report_strict_mode_warning(&self, _message: &str) {}
}

#[test]
fn test_nested_actions_return_result() {
    let mut rt = MobxRuntime::new();
    let host = RecordingHost::default();
    set_enforce_actions(&mut rt, ActionPolicy::Always);
    drain_strict_mode_warnings(&mut rt);

    let value = action(&mut rt, &host, "outer".to_string(), |rt: &mut MobxRuntime| {
        run_in_action(rt, &host, |_: &mut MobxRuntime| 42).unwrap()
    })
    .unwrap();
    assert_eq!(value, 42);
    assert!(drain_strict_mode_warnings(&mut rt).is_empty());

    set_enforce_actions(&mut rt, ActionPolicy::Never);
}

#[test]
fn test_allow_state_changes_restores_policy() {
    let mut rt = MobxRuntime::new();
    set_enforce_actions(&mut rt, ActionPolicy::Always);
    drain_strict_mode_warnings(&mut rt);

    let result = allow_state_changes(&mut rt, |_: &mut MobxRuntime| "ok");
    assert_eq!(result, "ok");
    assert_eq!(enforce_actions_policy(&rt), ActionPolicy::Always);
    assert!(drain_strict_mode_warnings(&mut rt).is_empty());

    set_enforce_actions(&mut rt, ActionPolicy::Never);
}

#[test]
fn test_action_allows_state_changes_and_restores_policy() {
    let mut rt = MobxRuntime::new();
    let host = RecordingHost::default();
    set_enforce_actions(&mut rt, ActionPolicy::Always);

    let atom = rt.create_atom("action_atom".to_string()).unwrap();
    run_in_action(&mut rt, &host, |rt: &mut MobxRuntime| rt.report_changed(&host, atom).unwrap()).unwrap();
    assert!(drain_strict_mode_warnings(&mut rt).is_empty());

    rt.report_changed(&host, atom).unwrap();
    let warnings = drain_strict_mode_warnings(&mut rt);
    assert_eq!(warnings.len(), 1);
    assert!(warnings[0].contains("action_atom"), "expected warning to reference atom name");

    set_enforce_actions(&mut rt, ActionPolicy::Never);
}

#[test]
fn action_context_allows_changes_inside_and_restores_after() {
    let mut rt = MobxRuntime::new();
    let host = RecordingHost::default();
    set_enforce_actions(&mut rt, ActionPolicy::Always);
    let ctx = ActionContext::new(&mut rt, &host, "step".to_string());
    assert!(state_changes_allowed(&rt));
    assert!(state_reads_allowed(&rt));
    assert_eq!(batch_depth(&rt), 1);
    ctx.end(&mut rt, &host).unwrap();
    assert!(!state_changes_allowed(&rt));
    assert_eq!(batch_depth(&rt), 0);
}

#[test]
fn action_reports_start_and_end_to_spy_listeners() {
    let mut rt = MobxRuntime::new();
    let host = RecordingHost::default();
    let _sub = register(&mut rt, &host, ());
    action(&mut rt, &host, "spy_action".to_string(), |_: &mut MobxRuntime| ()).unwrap();
    let events = host.events.borrow();
    assert_eq!(
        *events,
        vec![
            SpyEvent::ActionStart { name: "spy_action".to_string() },
            SpyEvent::ActionEnd { name: "spy_action".to_string() },
        ]
    );
}

#[test]
fn action_policy_round_trips_through_enforce_policy() {
    for policy in [ActionPolicy::Never, ActionPolicy::Observed, ActionPolicy::Always] {
        assert_eq!(ActionPolicy::from(EnforcePolicy::from(policy)), policy);
    }
}

use mobx_rs::ids::ReactionId;
use mobx_rs::runtime::{
    allow_state_changes_guard, allow_state_reads_guard, batch_depth, current_run_id,
    drain_strict_mode_warnings, enforce_policy, enqueue_reaction, has_pending_reactions,
    is_running_reactions, is_state_change_allowed, next_pending_reaction, next_run_id,
    record_strict_mode_violation, reset_runtime, set_enforce_policy, set_running_reactions,
    start_batch, state_changes_allowed, state_reads_allowed, EnforcePolicy, Fault, MobxRuntime,
};

#[test]
fn test_state_change_guard_restores_previous_value() {
    let mut rt = MobxRuntime::new();
    reset_runtime(&mut rt);
    assert!(state_changes_allowed(&rt));

    {
        let guard = allow_state_changes_guard(&mut rt, false);
        assert!(!state_changes_allowed(&rt));
        guard.restore(&mut rt);
    }

    assert!(state_changes_allowed(&rt));
}

#[test]
fn test_state_read_guard_restores_previous_value() {
    let mut rt = MobxRuntime::new();
    reset_runtime(&mut rt);
    assert!(state_reads_allowed(&rt));

    {
        let guard = allow_state_reads_guard(&mut rt, false);
        assert!(!state_reads_allowed(&rt));
        guard.restore(&mut rt);
    }

    assert!(state_reads_allowed(&rt));
}

#[test]
fn test_batch_guard_tracks_depth() {
    let mut rt = MobxRuntime::new();
    reset_runtime(&mut rt);
    assert_eq!(batch_depth(&rt), 0);

    let outer = start_batch(&mut rt);
    assert_eq!(batch_depth(&rt), 1);

    {
        let inner = start_batch(&mut rt);
        assert_eq!(batch_depth(&rt), 2);
        inner.end(&mut rt).unwrap();
    }

    assert_eq!(batch_depth(&rt), 1);
    outer.end(&mut rt).unwrap();
    assert_eq!(batch_depth(&rt), 0);
}

#[test]
fn test_manual_batch_end() {
    let mut rt = MobxRuntime::new();
    reset_runtime(&mut rt);
    assert_eq!(batch_depth(&rt), 0);

    let guard = start_batch(&mut rt);
    assert_eq!(batch_depth(&rt), 1);
    guard.end(&mut rt).unwrap();
    assert_eq!(batch_depth(&rt), 0);
}

#[test]
fn test_run_id_monotonicity() {
    let mut rt = MobxRuntime::new();
    reset_runtime(&mut rt);
    let first = next_run_id(&mut rt);
    let second = next_run_id(&mut rt);
    assert_eq!(first + 1, second);
    assert_eq!(current_run_id(&rt), second);
}

#[test]
fn test_enforce_policy_assignment() {
    let mut rt = MobxRuntime::new();
    reset_runtime(&mut rt);
    assert_eq!(enforce_policy(&rt), EnforcePolicy::Never);
    set_enforce_policy(&mut rt, EnforcePolicy::Always);
    assert_eq!(enforce_policy(&rt), EnforcePolicy::Always);
}

#[test]
fn test_enqueue_reaction_tracks_uniqueness() {
    let mut rt = MobxRuntime::new();
    reset_runtime(&mut rt);
    let reaction = ReactionId::try_from_raw(1).unwrap();
    enqueue_reaction(&mut rt, reaction);
    enqueue_reaction(&mut rt, reaction);
    assert!(has_pending_reactions(&rt));
    assert_eq!(next_pending_reaction(&mut rt), Some(reaction));
    assert!(!has_pending_reactions(&rt));
}

#[test]
fn test_running_reactions_flag() {
    let mut rt = MobxRuntime::new();
    reset_runtime(&mut rt);
    assert!(!is_running_reactions(&rt));
    let previous = set_running_reactions(&mut rt, true);
    assert!(!previous);
    assert!(is_running_reactions(&rt));
    let previous = set_running_reactions(&mut rt, false);
    assert!(previous);
    assert!(!is_running_reactions(&rt));
}

#[test]
fn test_state_change_allowed_respects_policy() {
    let mut rt = MobxRuntime::new();
    reset_runtime(&mut rt);
    set_enforce_policy(&mut rt, EnforcePolicy::Observed);
    assert!(is_state_change_allowed(&rt, false));
    assert!(!is_state_change_allowed(&rt, true));
}

#[test]
fn test_record_strict_mode_violation_tracks_warning() {
    let mut rt = MobxRuntime::new();
    reset_runtime(&mut rt);
    set_enforce_policy(&mut rt, EnforcePolicy::Always);
    let warning = record_strict_mode_violation(&mut rt, "test_atom", true);
    assert!(warning.is_some());
    let warnings = drain_strict_mode_warnings(&mut rt);
    assert_eq!(warnings.len(), 1);
    assert!(warnings[0].contains("test_atom"));
}

#[test]
fn strict_mode_message_names_policy_and_observable() {
    let mut rt = MobxRuntime::new();
    set_enforce_policy(&mut rt, EnforcePolicy::Observed);
    assert_eq!(record_strict_mode_violation(&mut rt, "counter", false), None);
    assert_eq!(
        record_strict_mode_violation(&mut rt, "counter", true).unwrap(),
        "strict mode (observed) violation: observable `counter` was modified outside an action"
    );
    set_enforce_policy(&mut rt, EnforcePolicy::Always);
    assert_eq!(
        record_strict_mode_violation(&mut rt, "x", false).unwrap(),
        "strict mode (always) violation: observable `x` was modified outside an action"
    );
    assert_eq!(drain_strict_mode_warnings(&mut rt).len(), 2);
    assert!(drain_strict_mode_warnings(&mut rt).is_empty());
}

#[test]
fn never_policy_allows_every_change() {
    let mut rt = MobxRuntime::new();
    set_enforce_policy(&mut rt, EnforcePolicy::Always);
    assert!(!state_changes_allowed(&rt));
    set_enforce_policy(&mut rt, EnforcePolicy::Never);
    assert!(state_changes_allowed(&rt));
    assert!(is_state_change_allowed(&rt, true));
}

#[test]
fn pending_reactions_come_out_in_queue_order() {
    let mut rt = MobxRuntime::new();
    let a = ReactionId::try_from_raw(3).unwrap();
    let b = ReactionId::try_from_raw(1).unwrap();
    enqueue_reaction(&mut rt, a);
    enqueue_reaction(&mut rt, b);
    enqueue_reaction(&mut rt, a);
    assert_eq!(next_pending_reaction(&mut rt), Some(a));
    assert_eq!(next_pending_reaction(&mut rt), Some(b));
    assert_eq!(next_pending_reaction(&mut rt), None);
}

#[test]
fn ending_a_batch_at_depth_zero_is_a_fault() {
    let mut rt = MobxRuntime::new();
    let guard = start_batch(&mut rt);
    let other = start_batch(&mut rt);
    other.end(&mut rt).unwrap();
    reset_runtime(&mut rt);
    assert_eq!(guard.end(&mut rt), Err(Fault::BatchUnderflow));
}

#[test]
fn spy_listener_ids_are_issued_in_order() {
    let mut rt = MobxRuntime::new();
    assert_eq!(rt.add_spy_listener(), 1);
    assert_eq!(rt.add_spy_listener(), 2);
    assert!(rt.has_spy_listeners());
    assert!(rt.remove_spy_listener(1));
    assert!(!rt.remove_spy_listener(1));
    assert_eq!(rt.spy_listeners_snapshot(), vec![2]);
}

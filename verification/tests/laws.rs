use mobx_rs::action::ActionPolicy;
use mobx_rs::ffi::{
    mobx_computed_t, mobx_observable_t, mobx_reaction_t, mobx_runtime_t, mobx_state_guard_t, runtime_handle_or_invalid,
    MobxActionPolicy, INVALID_ID, RUNTIME_ID,
};
use mobx_rs::fmt::name_with_number;
use mobx_rs::ids::{ObservableId, ReactionId};
use mobx_rs::registry::IdRegistry;
use mobx_rs::runtime::{
    allow_state_changes_guard, allow_state_reads_guard, start_batch, EnforcePolicy, MobxRuntime,
};

fn reaction(raw: u64) -> ReactionId {
    ReactionId::try_from_raw(raw).unwrap()
}

#[test]
fn queue_is_first_in_first_out() {
    let mut rt = MobxRuntime::new();
    rt.enqueue_reaction(reaction(7));
    rt.enqueue_reaction(reaction(3));
    rt.enqueue_reaction(reaction(7));
    assert_eq!(rt.next_pending_reaction(), Some(reaction(7)));
    assert_eq!(rt.next_pending_reaction(), Some(reaction(3)));
    assert_eq!(rt.next_pending_reaction(), None);
}

#[test]
fn batch_round_trip_restores_depth() {
    let mut rt = MobxRuntime::new();
    rt.enter_batch();
    rt.enter_batch();
    assert_eq!(rt.batch_depth(), 2);
    rt.exit_batch();
    let guard = start_batch(&mut rt);
    assert_eq!(rt.batch_depth(), 2);
    guard.end(&mut rt).unwrap();
    assert_eq!(rt.batch_depth(), 1);
}

#[test]
fn guards_restore_what_they_found() {
    let mut rt = MobxRuntime::new();
    rt.set_enforce_actions(EnforcePolicy::Always);
    assert!(!rt.is_allowing_state_changes());
    let changes = allow_state_changes_guard(&mut rt, true);
    let reads = allow_state_reads_guard(&mut rt, false);
    assert!(rt.is_allowing_state_changes());
    assert!(!rt.is_allowing_state_reads());
    reads.restore(&mut rt);
    changes.restore(&mut rt);
    assert!(!rt.is_allowing_state_changes());
    assert!(rt.is_allowing_state_reads());
}

#[test]
fn attached_entry_is_what_take_returns() {
    let mut registry: IdRegistry<ObservableId, String> = IdRegistry::new();
    let id = registry.reserve();
    registry.attach(id, "first".to_string());
    registry.attach(id, "second".to_string());
    assert_eq!(registry.take(id), Some("second".to_string()));
    assert_eq!(registry.take(id), None);
    assert_eq!(registry.issued(), 1);
}

#[test]
fn spy_listener_ids_are_unique() {
    let mut rt = MobxRuntime::new();
    let a = rt.add_spy_listener();
    let b = rt.add_spy_listener();
    assert_ne!(a, b);
    assert!(rt.remove_spy_listener(a));
    assert!(!rt.remove_spy_listener(a));
    let c = rt.add_spy_listener();
    assert!(c > b);
    assert_eq!(rt.spy_listeners_snapshot(), vec![b, c]);
    assert_eq!(rt.next_spy_listener(), c + 1);
}

#[test]
fn reset_keeps_entities_and_clears_state() {
    let mut rt = MobxRuntime::new();
    let atom = rt.create_atom("kept".to_string()).unwrap();
    rt.enqueue_reaction(reaction(1));
    rt.enter_batch();
    rt.add_spy_listener();
    rt.reset();
    assert_eq!(rt.batch_depth(), 0);
    assert!(!rt.has_pending_reactions());
    assert!(!rt.has_spy_listeners());
    assert_eq!(rt.observable_name(atom), "kept");
}

#[test]
fn decimal_names() {
    assert_eq!(name_with_number("Reaction@", 0), "Reaction@0");
    assert_eq!(name_with_number("Computed@", 1234567890), "Computed@1234567890");
    assert_eq!(name_with_number("", u64::MAX), u64::MAX.to_string());
}

#[test]
fn handle_validity() {
    assert!(mobx_runtime_t { raw: RUNTIME_ID }.is_valid());
    assert!(!mobx_runtime_t { raw: 2 }.is_valid());
    assert!(!mobx_observable_t { raw: INVALID_ID }.is_valid());
    assert!(mobx_observable_t { raw: 9 }.is_valid());
    assert!(mobx_reaction_t { raw: 1 }.is_valid());
    assert!(!mobx_state_guard_t { raw: 0 }.is_valid());
    assert!(mobx_computed_t { raw: 5 }.is_valid());
    assert_eq!(runtime_handle_or_invalid(mobx_runtime_t { raw: RUNTIME_ID }).raw, RUNTIME_ID);
    assert_eq!(runtime_handle_or_invalid(mobx_runtime_t { raw: 3 }).raw, INVALID_ID);
}

#[test]
fn c_policies_map_to_action_policies() {
    assert_eq!(MobxActionPolicy::MobxActionNever.to_action_policy(), ActionPolicy::Never);
    assert_eq!(MobxActionPolicy::MobxActionObserved.to_action_policy(), ActionPolicy::Observed);
    assert_eq!(MobxActionPolicy::MobxActionAlways.to_action_policy(), ActionPolicy::Always);
}

#[test]
fn handles_are_issued_by_the_registry() {
    let mut registry: IdRegistry<mobx_observable_t, &str> = IdRegistry::new();
    let first = registry.register("a");
    let second = registry.register("b");
    assert_eq!(first, mobx_observable_t { raw: 1 });
    assert_eq!(second, mobx_observable_t { raw: 2 });
    assert_eq!(registry.get(mobx_observable_t { raw: INVALID_ID }), None);
    assert_eq!(registry.get(second), Some(&"b"));
}

#[test]
fn run_id_advances_with_each_tracked_run() {
    let mut rt = MobxRuntime::new();
    let r = rt.create_reaction(None, false).unwrap();
    let d = rt.reaction_derivation(r).unwrap();
    assert_eq!(rt.current_run_id(), 0);
    let frame = rt.begin_tracking(d).unwrap();
    assert_eq!(rt.current_run_id(), 1);
    assert_eq!(rt.tracking_derivation(), Some(d));
    assert!(rt.is_allowing_state_reads());
    drop(frame);
}

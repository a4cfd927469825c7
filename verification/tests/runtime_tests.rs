use vts_hotkeys::dispatch::{collect_outcomes, plan_dispatch, DispatchOutcome};
use vts_hotkeys::instances::{group_instances, lookup_instances, SceneInstance};
use vts_hotkeys::session::{ListenerAction, Session, SessionEvent};

fn inst(name: &str, id: &str) -> SceneInstance {
    SceneInstance { asset_file_name: name.to_string(), instance_id: id.to_string() }
}

#[test]
fn groups_by_file_name_preserving_discovery_order() {
    let items = vec![inst("f1.item", "i1"), inst("f2.item", "j1"), inst("f1.item", "i2")];
    let index = group_instances(&items);
    assert_eq!(index.len(), 2);
    assert_eq!(index[0].0, "f1.item");
    assert_eq!(index[0].1, vec!["i1", "i2"]);
    assert_eq!(index[1].0, "f2.item");
    assert_eq!(index[1].1, vec!["j1"]);
}

#[test]
fn snapshot_of_unchanged_listing_is_equal() {
    let items = vec![inst("a", "1"), inst("b", "2"), inst("a", "3")];
    let first = group_instances(&items);
    let second = group_instances(&items);
    assert_eq!(first.len(), second.len());
    for (f, s) in first.iter().zip(second.iter()) {
        assert_eq!(f.0, s.0);
        assert_eq!(f.1, s.1);
    }
}

#[test]
fn lookup_misses_asset_without_instances() {
    let items = vec![inst("f1.item", "i1"), inst("f1.item", "i2")];
    let index = group_instances(&items);
    assert_eq!(lookup_instances(&index, "f1.item").unwrap().len(), 2);
    assert!(lookup_instances(&index, "f2.item").is_none());
}

#[test]
fn dispatch_for_absent_asset_is_a_no_op() {
    let items = vec![inst("f1.item", "i1"), inst("f1.item", "i2")];
    let index = group_instances(&items);
    let plan = plan_dispatch(&index, "f2.item", "h1");
    assert_eq!(plan.len(), 0);
}

#[test]
fn dispatch_plans_one_command_per_live_instance() {
    let items = vec![inst("f1.item", "i1"), inst("f1.item", "i2")];
    let index = group_instances(&items);
    let plan = plan_dispatch(&index, "f1.item", "h1");
    assert_eq!(plan.len(), 2);
    assert_eq!(plan[0].hotkey_id, "h1");
    assert_eq!(plan[0].instance_id, "i1");
    assert_eq!(plan[1].hotkey_id, "h1");
    assert_eq!(plan[1].instance_id, "i2");
}

#[test]
fn one_failing_instance_does_not_alter_other_reports() {
    let items = vec![inst("f1.item", "i1"), inst("f1.item", "i2"), inst("f1.item", "i3")];
    let index = group_instances(&items);

    let all_good = collect_outcomes(
        plan_dispatch(&index, "f1.item", "h1"),
        vec![DispatchOutcome::Delivered, DispatchOutcome::Delivered, DispatchOutcome::Delivered],
    );
    let one_bad = collect_outcomes(
        plan_dispatch(&index, "f1.item", "h1"),
        vec![
            DispatchOutcome::Delivered,
            DispatchOutcome::Failed("connection dropped".to_string()),
            DispatchOutcome::Delivered,
        ],
    );
    assert_eq!(all_good.len(), 3);
    assert_eq!(one_bad.len(), 3);
    for k in [0usize, 2] {
        assert_eq!(all_good[k].0.instance_id, one_bad[k].0.instance_id);
        assert!(matches!(all_good[k].1, DispatchOutcome::Delivered));
        assert!(matches!(one_bad[k].1, DispatchOutcome::Delivered));
    }
    assert!(matches!(one_bad[1].1, DispatchOutcome::Failed(_)));
}

#[test]
fn absent_token_starts_unauthenticated() {
    let s = Session::from_persisted(None);
    assert!(s.auth_token.is_none());
}

#[test]
fn persisted_token_is_offered_for_reuse() {
    let s = Session::from_persisted(Some("stored-token".to_string()));
    assert_eq!(s.auth_token.as_deref(), Some("stored-token"));
}

#[test]
fn new_token_event_updates_session_and_demands_exact_persist() {
    let mut s = Session::from_persisted(None);
    let action = s.apply_event(SessionEvent::NewAuthToken("tok-123".to_string()));
    match action {
        ListenerAction::PersistToken(bytes) => assert_eq!(bytes, "tok-123"),
        ListenerAction::LogOnly => panic!("a new token must be persisted"),
    }
    assert_eq!(s.auth_token.as_deref(), Some("tok-123"));
}

#[test]
fn other_events_are_log_only_and_leave_session_alone() {
    let mut s = Session::from_persisted(Some("keep".to_string()));
    let action = s.apply_event(SessionEvent::Other);
    assert!(matches!(action, ListenerAction::LogOnly));
    assert_eq!(s.auth_token.as_deref(), Some("keep"));
}

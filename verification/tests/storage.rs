use cfw::callback::{AnyCallback, AnySchedule, CallbackNode};
use cfw::callback_storage::{CallbackStorage, RunState, SharedCallbackNode};
use cfw::scheduling::CallbackNodeId;
use cfw::test_tasks::NoOpCallback;
use cfw::time::{Duration, FrameworkTime};

fn named(name: &str) -> CallbackNode<u64> {
    CallbackNode::new_named(
        AnyCallback {
            inner: Box::new(NoOpCallback {}),
        },
        name.to_string(),
    )
}

fn make_node() -> SharedCallbackNode<u64> {
    SharedCallbackNode::new(named("TestNode"))
}

#[test]
fn trigger_from_idle_enqueues_once() {
    let mut node = make_node();
    assert!(node.trigger(), "Idle → Enqueued should report enqueue");
    assert!(
        !node.trigger(),
        "second trigger while Enqueued should dedup"
    );
    node.acquire_running();
    node.release_running();
    assert!(node.trigger(), "Idle again after a full cycle");
}

#[test]
fn trigger_while_running_defers_rerun() {
    let mut node = make_node();
    node.acquire_running();
    assert!(
        !node.trigger(),
        "trigger while Running should defer, not enqueue"
    );
    assert!(
        node.release_running(),
        "release after mid-run trigger should request re-enqueue"
    );
    assert!(!node.trigger(), "Enqueued again after release; dedup holds");
    node.acquire_running();
    assert!(
        !node.release_running(),
        "no trigger this run: plain release back to Idle"
    );
}

#[test]
fn access_round_trips() {
    let mut node = make_node();
    let name = node.access().name().to_string();
    assert_eq!(name, "TestNode");
    assert!(!node.is_running());
}

#[test]
fn try_access_skips_running_node() {
    let mut node = make_node();
    node.acquire_running();
    assert!(node.try_access().is_none());
    node.release_running();
    assert!(node.try_access().is_some_and(|n| n.name() == "TestNode"));
}

#[test]
fn try_access_does_not_clobber_enqueued_node() {
    let mut node = make_node();
    assert!(node.trigger(), "Idle → Enqueued should report enqueue");
    assert!(node.try_access().is_none());
    node.acquire_running();
    assert!(
        !node.release_running(),
        "no mid-run trigger: plain release back to Idle"
    );
}

#[test]
fn next_exec_time_snapshot() {
    let mut node = make_node();
    assert_eq!(node.next_exec_time(), None);
    let t = FrameworkTime::from_nanoseconds(42);
    node.set_next_exec_time(Some(t));
    assert_eq!(node.next_exec_time(), Some(t));
    node.set_next_exec_time(None);
    assert_eq!(node.next_exec_time(), None);
}

#[test]
fn refresh_next_exec_time_uses_node_callback() {
    let mut inner = named("Periodic");
    inner.set_execution_time_callback(AnySchedule::periodic(Duration::from_nanos(5)));
    let mut node = SharedCallbackNode::new(inner);
    node.acquire_running();
    node.refresh_next_exec_time(FrameworkTime::from_nanoseconds(100));
    node.release_running();
    assert_eq!(
        node.next_exec_time(),
        Some(FrameworkTime::from_nanoseconds(105))
    );
}

#[test]
fn run_states_are_stored_as_bytes() {
    assert_eq!(RunState::from_u8(0), RunState::Idle);
    assert_eq!(RunState::from_u8(1), RunState::Enqueued);
    assert_eq!(RunState::from_u8(2), RunState::Running);
    assert_eq!(RunState::from_u8(3), RunState::RunningTriggered);
}

#[test]
fn nodes_are_found_by_id_and_name() {
    let mut storage: CallbackStorage<u64> = CallbackStorage::new();
    assert!(storage.is_empty());
    assert_eq!(storage.push(named("a")), CallbackNodeId(0));
    assert_eq!(storage.push(named("b")), CallbackNodeId(1));
    assert_eq!(storage.push(named("b")), CallbackNodeId(2));
    assert_eq!(storage.len(), 3);
    assert_eq!(storage.node_id_by_name("b"), Some(CallbackNodeId(1)));
    assert_eq!(storage.node_id_by_name("c"), None);
    assert!(storage.get(CallbackNodeId(3)).is_none());
    assert_eq!(storage.get_by_name("a").unwrap().node.name(), "a");
}

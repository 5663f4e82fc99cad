use aether::execution_store::{
    ExecutionNodeRecord, ExecutionStatus, ExecutionStore, NodeStatus,
};
use aether::health_poller::{HealthPoller, Probe};
use aether::registry_store::{
    capabilities_from_text, capabilities_to_text, entry_from_row, labels_from_text, labels_to_text,
    RegistrationEntry, RegistryStatus, RegistryStore,
};
use aether::text_map::TextMap;

const T0: &str = "2026-06-01T00:00:00+00:00";
const T1: &str = "2026-06-01T00:05:00+00:00";
const T2: &str = "2026-06-01T00:10:00+00:00";

fn names(ids: &[&str]) -> Vec<String> {
    ids.iter().map(|s| s.to_string()).collect()
}

fn created(id: &str, nodes: &[&str]) -> ExecutionStore {
    let mut store = ExecutionStore::new();
    store.create_execution(id, "{}", "{}", &names(nodes), T0).unwrap();
    store
}

fn node_of(store: &ExecutionStore, wid: &str, id: &str) -> ExecutionNodeRecord {
    let (_, nodes) = store.load_execution(wid).unwrap();
    nodes.into_iter().find(|n| n.node_id == id).unwrap()
}

// Executions.

#[test]
fn reopen_file_preserves_execution_state() {
    let mut first = created("wf", &["a", "b"]);
    first.complete_node("wf", "a", r#"{"v":1}"#, T1);
    // The rows that were read out stand for those that a file holds.
    let store = ExecutionStore { executions: first.executions, nodes: first.nodes };
    let (exec, _) = store.load_execution("wf").unwrap();
    assert_eq!(exec.status, ExecutionStatus::Running);
    let a = node_of(&store, "wf", "a");
    assert_eq!(a.status, NodeStatus::Done);
    assert_eq!(a.output.as_deref(), Some(r#"{"v":1}"#));
}

#[test]
fn create_then_load_execution() {
    let mut store = ExecutionStore::new();
    store
        .create_execution(
            "wf-1",
            r#"{"entries":["a"],"edges":[{"from":"a","to":"b"}]}"#,
            r#"{"msg":"hi"}"#,
            &names(&["a", "b"]),
            T0,
        )
        .unwrap();
    let (exec, nodes) = store.load_execution("wf-1").unwrap();
    assert_eq!(exec.status, ExecutionStatus::Running);
    assert_eq!(nodes.len(), 2);
    assert!(nodes.iter().all(|n| n.status == NodeStatus::Pending));
}

#[test]
fn list_active_returns_running_execution() {
    let store = created("wf-2", &["a"]);
    let active = store.list_active();
    assert_eq!(active.len(), 1);
    assert_eq!(active[0].workflow_id, "wf-2");
}

#[test]
fn load_missing_execution_returns_none() {
    assert!(ExecutionStore::new().load_execution("nope").is_none());
}

#[test]
fn complete_node_sets_done_and_output() {
    let mut store = created("wf", &["a"]);
    store.mark_node_running("wf", "a", T0);
    assert_eq!(node_of(&store, "wf", "a").status, NodeStatus::Running);
    store.complete_node("wf", "a", r#"{"x":1}"#, T1);
    let a = node_of(&store, "wf", "a");
    assert_eq!(a.status, NodeStatus::Done);
    assert_eq!(a.output.as_deref(), Some(r#"{"x":1}"#));
    assert_eq!(a.updated_at, T1);
}

#[test]
fn park_node_records_correlation() {
    let mut store = created("wf", &["a"]);
    store.park_node("wf", "a", "s1", "ap1", "phase_gate", "Sign off?", &None, T1);
    let a = node_of(&store, "wf", "a");
    assert_eq!(a.status, NodeStatus::Suspended);
    assert_eq!(a.session_id.as_deref(), Some("s1"));
    assert_eq!(a.approval_id.as_deref(), Some("ap1"));
    assert_eq!(a.prompt.as_deref(), Some("Sign off?"));
}

#[test]
fn complete_node_clears_correlation_after_resume() {
    let mut store = created("wf", &["a"]);
    let deadline = Some("2026-01-01T00:00:00+00:00".to_string());
    store.park_node("wf", "a", "s1", "ap1", "tool_approval", "ok?", &deadline, T1);
    store.complete_node("wf", "a", r#"{"done":true}"#, T2);
    let a = node_of(&store, "wf", "a");
    assert_eq!(a.status, NodeStatus::Done);
    assert!(a.session_id.is_none());
    assert!(a.approval_id.is_none());
    assert!(a.kind.is_none());
    assert!(a.prompt.is_none());
    assert!(a.gate_deadline.is_none());
}

#[test]
fn finish_execution_sets_status_and_result() {
    let mut store = created("wf", &["a"]);
    let result = Some(r#"{"r":1}"#.to_string());
    store.finish_execution("wf", ExecutionStatus::Succeeded, &result, &None, T1);
    let (exec, _) = store.load_execution("wf").unwrap();
    assert_eq!(exec.status, ExecutionStatus::Succeeded);
    assert_eq!(exec.result.as_deref(), Some(r#"{"r":1}"#));
    assert!(store.list_active().is_empty());
}

#[test]
fn expire_gates_fails_past_deadline_nodes() {
    let mut store = created("wf", &["a"]);
    let deadline = Some("2000-01-01T00:00:00+00:00".to_string());
    store.park_node("wf", "a", "s1", "a1", "phase_gate", "ok?", &deadline, T0);
    let expired = store.expire_gates("2030-01-01T00:00:00+00:00");
    assert_eq!(expired, vec![("wf".to_string(), "a".to_string())]);
    let (exec, nodes) = store.load_execution("wf").unwrap();
    assert_eq!(exec.status, ExecutionStatus::Failed);
    assert_eq!(exec.error.as_deref(), Some("gate deadline expired"));
    assert_eq!(nodes[0].status, NodeStatus::Failed);
    assert!(store.expire_gates("2030-01-01T00:00:00+00:00").is_empty());
}

#[test]
fn expire_gates_ignores_future_and_null_deadlines() {
    let mut store = created("wf", &["a", "b"]);
    store.park_node("wf", "a", "s", "x", "k", "p", &None, T0);
    let deadline = Some("2030-01-01T00:00:00+00:00".to_string());
    store.park_node("wf", "b", "s", "y", "k", "p", &deadline, T0);
    assert!(store.expire_gates("2020-01-01T00:00:00+00:00").is_empty());
}

#[test]
fn execution_is_entered_once() {
    let mut store = created("wf", &["a"]);
    let again = store.create_execution("wf", "{}", "{}", &names(&["a"]), T1).unwrap_err();
    assert!(again.to_string().contains("UNIQUE constraint failed: executions.workflow_id"));
    let twice = store.create_execution("other", "{}", "{}", &names(&["x", "x"]), T1).unwrap_err();
    assert!(twice.to_string().contains("execution_nodes"));
    assert!(store.load_execution("other").is_none());
}

#[test]
fn hold_keeps_other_drivers_out_until_it_ends() {
    let mut store = created("wf", &["a"]);
    assert!(store.claim_execution("wf", "first", T0, T1));
    assert!(!store.claim_execution("wf", "second", T0, T1));
    assert!(store.claim_execution("wf", "first", T0, T1));
    assert!(store.claim_execution("wf", "second", T2, T2));
    assert!(!store.claim_execution("missing", "first", T0, T1));
}

#[test]
fn only_the_holder_gives_up_or_renews() {
    let mut store = created("wf", &["a"]);
    assert!(store.claim_execution("wf", "first", T0, T1));
    store.release_execution("wf", "second");
    store.renew_lease("wf", "second", T2);
    assert_eq!(store.executions[0].claimed_by.as_deref(), Some("first"));
    assert_eq!(store.executions[0].lease_expires_at.as_deref(), Some(T1));
    store.renew_lease("wf", "first", T2);
    assert_eq!(store.executions[0].lease_expires_at.as_deref(), Some(T2));
    store.release_execution("wf", "first");
    assert!(store.claim_execution("wf", "second", T0, T1));
}

#[test]
fn executions_do_not_touch_each_other() {
    let mut store = created("one", &["a"]);
    store.create_execution("two", "{}", "{}", &names(&["a"]), T0).unwrap();
    store.complete_node("one", "a", "1", T1);
    store.finish_execution("one", ExecutionStatus::Failed, &None, &Some("x".to_string()), T1);
    assert_eq!(node_of(&store, "two", "a").status, NodeStatus::Pending);
    assert_eq!(store.list_active().len(), 1);
}

#[test]
fn status_words_read_back() {
    for s in [
        ExecutionStatus::Running,
        ExecutionStatus::Suspended,
        ExecutionStatus::Succeeded,
        ExecutionStatus::Failed,
    ] {
        assert_eq!(ExecutionStatus::parse(s.as_str()), s);
    }
    for s in [
        NodeStatus::Pending,
        NodeStatus::Running,
        NodeStatus::Done,
        NodeStatus::Suspended,
        NodeStatus::Failed,
    ] {
        assert_eq!(NodeStatus::parse(s.as_str()), s);
    }
    assert_eq!(ExecutionStatus::parse("?"), ExecutionStatus::Running);
    assert_eq!(NodeStatus::parse("?"), NodeStatus::Pending);
    assert_eq!(RegistryStatus::parse("healthy"), RegistryStatus::Healthy);
    assert_eq!(RegistryStatus::parse("?"), RegistryStatus::Unknown);
    assert_eq!(RegistryStatus::Unhealthy.as_str(), "unhealthy");
}

// Registered instances.

fn entry(id: &str, name: &str, url: &str, caps: &[&str]) -> RegistrationEntry {
    RegistrationEntry {
        instance_id: id.to_string(),
        name: name.to_string(),
        http_url: url.to_string(),
        capabilities: names(caps),
        metadata: TextMap::new(),
        registered_at: "2026-05-21T00:00:00Z".to_string(),
        last_health_check: None,
        status: RegistryStatus::Unknown,
    }
}

#[test]
fn register_and_list() {
    let mut store = RegistryStore::new();
    store.register(entry("inst-1", "calc", "http://127.0.0.1:8080", &["calculate"]));
    let all = store.list_all();
    assert_eq!(all.len(), 1);
    assert_eq!(all[0].name, "calc");
    assert_eq!(all[0].status, RegistryStatus::Unknown);
}

#[test]
fn deregister_removes_entry() {
    let mut store = RegistryStore::new();
    store.register(entry("inst-2", "calc", "http://127.0.0.1:8081", &[]));
    assert!(store.deregister("inst-2"));
    assert_eq!(store.list_all().len(), 0);
    assert!(!store.deregister("inst-2"));
}

#[test]
fn same_url_reregister_replaces_instance() {
    let mut store = RegistryStore::new();
    let url = "http://127.0.0.1:9000";
    assert_eq!(store.register(entry("old-id", "a", url, &[])), None);
    assert_eq!(store.register(entry("new-id", "a", url, &[])), Some("old-id".to_string()));
    let all = store.list_all();
    assert_eq!(all.len(), 1);
    assert_eq!(all[0].instance_id, "new-id");
}

#[test]
fn update_health_changes_status() {
    let mut store = RegistryStore::new();
    store.register(entry("inst-3", "x", "http://127.0.0.1:9001", &[]));
    store.update_health("inst-3", RegistryStatus::Healthy, "2026-05-21T00:01:00Z");
    let all = store.list_all();
    assert_eq!(all[0].status, RegistryStatus::Healthy);
    assert_eq!(all[0].last_health_check.as_deref(), Some("2026-05-21T00:01:00Z"));
}

#[test]
fn list_by_name_filters_correctly() {
    let mut store = RegistryStore::new();
    store.register(entry("a1", "calc", "http://127.0.0.1:9010", &[]));
    store.register(entry("b1", "writer", "http://127.0.0.1:9011", &[]));
    let calcs = store.list_by_name("calc");
    assert_eq!(calcs.len(), 1);
    assert_eq!(calcs[0].instance_id, "a1");
}

#[test]
fn events_need_a_registered_instance() {
    let mut store = RegistryStore::new();
    assert!(store.add_event("ghost", "error", "{}", T0).is_err());
    store.register(entry("i", "calc", "http://127.0.0.1:9012", &[]));
    assert!(store.add_event("i", "error", "{}", T0).is_ok());
}

#[test]
fn rows_keep_lists_and_labels_as_text() {
    let caps = names(&["a", "b"]);
    assert_eq!(capabilities_to_text(&caps), r#"["a","b"]"#);
    assert_eq!(capabilities_from_text(r#"["a","b"]"#), caps);
    assert!(capabilities_from_text("nonsense").is_empty());
    let mut labels = TextMap::new();
    labels.insert("k".to_string(), "v".to_string());
    assert_eq!(labels_to_text(&labels), r#"{"k":"v"}"#);
    assert_eq!(labels_from_text(r#"{"k":"v"}"#), labels);
    assert!(labels_from_text("[]").is_empty());
    let mut odd = TextMap::new();
    odd.insert("$serde_json::private::RawValue".to_string(), "v".to_string());
    assert_eq!(labels_from_text(&labels_to_text(&odd)), odd);
    let e = entry_from_row(
        "i".to_string(),
        "calc".to_string(),
        "http://u".to_string(),
        r#"["a"]"#,
        "{}",
        T0.to_string(),
        None,
        "healthy",
    );
    assert_eq!(e.capabilities, names(&["a"]));
    assert_eq!(e.status, RegistryStatus::Healthy);
}

// Health.

fn look(id: &str, ok: bool) -> Vec<Probe> {
    vec![Probe { instance_id: id.to_string(), ok, at: T1.to_string() }]
}

#[test]
fn healthy_agent_marked_healthy_after_poll() {
    let mut store = RegistryStore::new();
    store.register(entry("i", "test", "http://127.0.0.1:8080", &[]));
    let mut counts = TextMap::new();
    HealthPoller::new().poll_once(&mut store, &mut counts, &look("i", true));
    assert_eq!(store.list_all()[0].status, RegistryStatus::Healthy);
}

#[test]
fn unreachable_agent_marked_unhealthy_after_threshold() {
    let mut store = RegistryStore::new();
    store.register(entry("i", "test", "http://127.0.0.1:1", &[]));
    let poller = HealthPoller { failure_threshold: 3 };
    let mut counts = TextMap::new();
    poller.poll_once(&mut store, &mut counts, &look("i", false));
    poller.poll_once(&mut store, &mut counts, &look("i", false));
    assert_eq!(store.list_all()[0].status, RegistryStatus::Unknown);
    poller.poll_once(&mut store, &mut counts, &look("i", false));
    assert_eq!(store.list_all()[0].status, RegistryStatus::Unhealthy);
}

#[test]
fn recovery_resets_to_healthy() {
    let mut store = RegistryStore::new();
    store.register(entry("i", "test", "http://127.0.0.1:8080", &[]));
    let poller = HealthPoller { failure_threshold: 3 };
    let mut counts = TextMap::new();
    for _ in 0..3 {
        poller.poll_once(&mut store, &mut counts, &look("i", false));
    }
    poller.poll_once(&mut store, &mut counts, &look("i", true));
    assert_eq!(
        store.list_all()[0].status,
        RegistryStatus::Healthy,
        "one success should set healthy"
    );
    assert!(counts.is_empty());
}

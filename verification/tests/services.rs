use aether::clock::{to_utc, Instant};
use aether::dashboard::{check_auth, reply_tokens, AppState, DashboardConfig, TokenAccumulator};
use aether::engine::McpEngine;
use aether::envelope::{Envelope, EnvelopeKind};
use aether::error::{AetherError, Outcome};
use aether::events::SupervisorEvent;
use aether::execution_store::{ExecutionStatus, ExecutionStore};
use aether::instance_manager::{InstanceManager, Route};
use aether::job::{JobState, JobStore};
use aether::json::Json;
use aether::jsonrpc::{
    failed_reply, handle_message, handle_parsed, handle_request, recovered_reply, rows_needed,
    tool_descriptors, Handled, JsonRpcRequest, JsonRpcResponse, Rows,
};
use aether::orchestrator::Orchestrator;
use aether::registry::AgentRegistry;
use aether::registry_server::{
    deregister_instance, get_instance, list_agents, list_instances, push_event, register_agent,
    CapabilityFilter, EventRequest, RegisterRequest,
};
use aether::registry_store::{RegistryStatus, RegistryStore};
use aether::text::{decimal, number};
use aether::text_map::TextMap;
use aether::transport::{
    flatten, health_url, invoke_url, read_answer, read_line, resume_url, take_answer, take_line,
    write_line,
};
use aether::types::{AgentEndpoint, AgentNode, FailurePolicy, HealthStatus, SpawnPolicy};
use aether::workflow::Workflow;
use std::time::Duration;

const NOW: Instant = Instant { secs: 1_780_272_000, nanos: 0 };
const FRESH: u128 = 9;
const FRESH_TEXT: &str = "00000000-0000-0000-0000-000000000009";

fn json(text: &str) -> Json {
    Json::parse(text).unwrap()
}

fn mk_node(name: &str, spawn: SpawnPolicy) -> AgentNode {
    AgentNode {
        name: name.to_string(),
        capabilities: vec![],
        factory: AgentEndpoint::Local { key: name.to_string() },
        spawn,
        failure: FailurePolicy::default(),
        timeout: Duration::from_secs(5),
        shutdown_grace: Duration::from_secs(1),
        metadata: TextMap::new(),
        gate_deadline_secs: None,
    }
}

// Instances.

#[test]
fn dispatch_per_request() {
    let mut im = InstanceManager::new();
    let node = mk_node("echo", SpawnPolicy::PerRequest);
    im.initialize(&node);
    assert_eq!(InstanceManager::instances_needed(&node), 0);
    assert_eq!(im.route("echo"), Ok(Route::PerRequest));
}

#[test]
fn dispatch_singleton() {
    let mut im = InstanceManager::new();
    let node = mk_node("echo", SpawnPolicy::Singleton { max_queue: None });
    im.initialize(&node);
    assert_eq!(InstanceManager::instances_needed(&node), 1);
    for _ in 0..3 {
        assert_eq!(im.route("echo"), Ok(Route::Singleton));
        im.settle("echo");
    }
}

#[test]
fn singleton_queue_full_returns_error() {
    let mut im = InstanceManager::new();
    im.initialize(&mk_node("echo", SpawnPolicy::Singleton { max_queue: Some(0) }));
    assert!(matches!(im.route("echo"), Err(AetherError::WorkflowError { .. })));
}

#[test]
fn queue_takes_tasks_up_to_its_bound() {
    let mut im = InstanceManager::new();
    im.initialize(&mk_node("one", SpawnPolicy::Singleton { max_queue: Some(2) }));
    assert!(im.route("one").is_ok());
    assert!(im.route("one").is_ok());
    assert_eq!(
        im.route("one").unwrap_err().to_string(),
        "workflow error: singleton 'one' queue full (max 2)"
    );
    im.settle("one");
    assert!(im.route("one").is_ok());
    assert_eq!(im.route_resume("one"), Route::Singleton);
}

#[test]
fn pool_takes_turns() {
    let mut im = InstanceManager::new();
    let node = mk_node("many", SpawnPolicy::Pool { size: 2 });
    im.initialize(&node);
    assert_eq!(InstanceManager::instances_needed(&node), 2);
    assert_eq!(im.route("many"), Ok(Route::Pool { index: 0 }));
    assert_eq!(im.route("many"), Ok(Route::Pool { index: 1 }));
    assert_eq!(im.route_resume("many"), Route::Pool { index: 0 });
    assert_eq!(im.route("many"), Ok(Route::Pool { index: 1 }));
}

#[test]
fn call_that_runs_out_of_time_is_a_timeout() {
    let env = Envelope::invoke(1, Json::Null, TextMap::new());
    assert_eq!(InstanceManager::unwrap_timeout(Some(Ok(env.clone())), "n"), Ok(env));
    assert_eq!(
        InstanceManager::unwrap_timeout(None, "n"),
        Err(AetherError::AgentTimeout { node: "n".to_string() })
    );
}

// The way to an agent.

#[test]
fn http_transport_send_invoke() {
    let env = Envelope::invoke(1, json(r#"{"input": "hi"}"#), TextMap::new());
    assert_eq!(flatten(&env).payload, json(r#"{"input": "hi"}"#));
    let body = r#"{
        "id": "00000000-0000-0000-0000-000000000001",
        "kind": "result",
        "payload": {"output": "hello"},
        "metadata": {}
    }"#;
    let result = read_answer("test", body).unwrap();
    assert_eq!(result.kind, EnvelopeKind::Result);
    assert_eq!(result.payload.get("output").unwrap().as_str(), Some("hello"));
    assert!(matches!(
        read_answer("test", "<html>"),
        Err(AetherError::TransportError { .. })
    ));
}

#[test]
fn answer_that_was_not_read_is_a_broken_connection() {
    let msg = Envelope::invoke(1, json("1"), TextMap::new());
    assert_eq!(take_answer("n", Ok(msg.clone())), Ok(msg.clone()));
    assert_eq!(
        take_answer("n", Err("bad".to_string())),
        Err(AetherError::TransportError {
            node: "n".to_string(),
            message: "failed to decode response: bad".to_string()
        })
    );
    assert_eq!(take_line("n", Some(Ok(msg.clone()))), Ok(msg));
    let broken = |message: &str| {
        Err(AetherError::TransportError { node: "n".to_string(), message: message.to_string() })
    };
    assert_eq!(take_line("n", Some(Err("bad".to_string()))), broken("bad"));
    assert_eq!(take_line("n", None), broken("agent closed connection (EOF)"));
}

#[test]
fn agents_get_the_text_of_a_task_beside_its_members() {
    let sent = |payload: &str| flatten(&Envelope::invoke(1, json(payload), TextMap::new())).payload;
    assert_eq!(
        sent(r#"{"goal": "g", "depth": 2}"#),
        json(r#"{"goal": "g", "depth": 2, "input": "g"}"#)
    );
    assert_eq!(sent(r#"{"a": "x", "b": "y"}"#).get("input").unwrap().as_str(), Some("x\n\n---\n\ny"));
    assert_eq!(sent(r#"{"input": 5, "output": "o"}"#), json(r#"{"input": "o", "output": "o"}"#));
    assert_eq!(sent("\"plain\""), json(r#"{"input": "plain"}"#));
    assert_eq!(sent("[1, 2]"), json(r#"{"input": "1\n\n---\n\n2"}"#));
    let once = flatten(&Envelope::invoke(1, json(r#"{"goal": "g"}"#), TextMap::new()));
    assert_eq!(flatten(&once), once);
}

#[test]
fn addresses_have_one_slash() {
    assert_eq!(invoke_url("http://h:1/"), "http://h:1/aether/invoke");
    assert_eq!(resume_url("http://h:1"), "http://h:1/aether/resume");
    assert_eq!(health_url("http://h:1//"), "http://h:1/health");
}

#[test]
fn roundtrip_over_unix_socket() {
    let msg = Envelope::invoke(3, json(r#"{"x": 1}"#), TextMap::new());
    let line = write_line(&msg);
    assert!(line.ends_with('\n') && line.matches('\n').count() == 1);
    let seen = read_line("test", Some(line.as_str())).unwrap();
    let response = Envelope { kind: EnvelopeKind::Result, ..seen };
    assert_eq!(response.id, msg.id);
    assert_eq!(response.kind, EnvelopeKind::Result);
    assert_eq!(response.payload.get("x").unwrap().as_u64(), Some(1));
    assert!(matches!(read_line("test", None), Err(AetherError::TransportError { .. })));
}

#[test]
fn moments_are_brought_to_utc() {
    assert_eq!(NOW.to_text(), "2026-06-01T00:00:00+00:00");
    assert_eq!(to_utc("2026-06-01T09:00:00+09:00"), "2026-06-01T00:00:00+00:00");
    assert_eq!(to_utc("tomorrow"), "tomorrow");
}

#[test]
fn texts_of_moments_stand_in_their_order() {
    let at = |secs: i64, nanos: u32| Instant { secs, nanos }.to_text();
    let texts = [
        at(NOW.secs, 0),
        at(NOW.secs, 1),
        at(NOW.secs, 500_000_000),
        at(NOW.secs, 500_001_000),
        at(NOW.secs, 500_001_001),
        at(NOW.secs + 1, 0),
        at(NOW.secs + 86_400, 0),
        at(253_402_300_799, 999_999_999),
    ];
    assert!(texts.windows(2).all(|w| w[0] < w[1]), "{texts:?}");
    assert_eq!(at(-62_167_219_200, 0), "0000-01-01T00:00:00+00:00");
}

// The registry as a service.

fn register(store: &mut RegistryStore, body: &str, id: u128) -> Json {
    let req = RegisterRequest::from_json(&json(body)).unwrap();
    let (reply, _) = register_agent(store, 30, req, id, "2026-06-01T00:00:00+00:00");
    assert_eq!(reply.status, 200);
    reply.body.unwrap()
}

fn body_of(name: &str, port: u16) -> String {
    format!(
        r#"{{ "name": "{name}", "http_url": "http://127.0.0.1:{port}", "capabilities": ["calculate"] }}"#
    )
}

#[test]
fn register_returns_instance_id_and_poll_interval() {
    let mut store = RegistryStore::new();
    let body = register(&mut store, &body_of("calc", 8080), FRESH);
    assert_eq!(body.get("instance_id").unwrap().as_str(), Some(FRESH_TEXT));
    assert_eq!(body.get("poll_interval_secs").unwrap().as_u64(), Some(30));
}

#[test]
fn list_agents_returns_summaries() {
    let mut store = RegistryStore::new();
    register(&mut store, &body_of("calc", 8081), 1);
    register(&mut store, &body_of("calc", 8082), 2);
    store.update_health("00000000-0000-0000-0000-000000000002", RegistryStatus::Healthy, "t");
    let reply = list_agents(&store, &CapabilityFilter { capability: None });
    assert_eq!(reply.status, 200);
    let body = reply.body.unwrap();
    assert_eq!(
        body.to_text(),
        r#"[{"instance_count":2,"name":"calc","status":"healthy"}]"#
    );
    let none = list_agents(&store, &CapabilityFilter { capability: Some("dance".to_string()) });
    assert_eq!(none.body, Some(Json::List(vec![])));
}

#[test]
fn deregister_returns_204() {
    let mut store = RegistryStore::new();
    register(&mut store, &body_of("x", 8082), FRESH);
    assert_eq!(deregister_instance(&mut store, FRESH_TEXT).status, 204);
    assert_eq!(deregister_instance(&mut store, FRESH_TEXT).status, 404);
}

#[test]
fn push_event_returns_202() {
    let mut store = RegistryStore::new();
    register(&mut store, &body_of("y", 8083), FRESH);
    let ev = EventRequest::from_json(&json(
        r#"{"event_type": "error", "payload": {"msg": "oops"}}"#,
    ))
    .unwrap();
    assert_eq!(push_event(&mut store, FRESH_TEXT, &ev, "t").status, 202);
}

#[test]
fn instances_are_listed_and_found() {
    let mut store = RegistryStore::new();
    register(&mut store, &body_of("calc", 8084), FRESH);
    let listed = list_instances(&store, "calc").body.unwrap();
    assert!(matches!(&listed, Json::List(v) if v.len() == 1));
    let found = get_instance(&store, "calc", FRESH_TEXT);
    assert_eq!(found.status, 200);
    let entry = found.body.unwrap();
    assert_eq!(entry.get("status").unwrap().as_str(), Some("unknown"));
    assert_eq!(entry.get("http_url").unwrap().as_str(), Some("http://127.0.0.1:8084"));
    assert_eq!(get_instance(&store, "calc", "nope").status, 404);
}

#[test]
fn registration_needs_a_name() {
    let refused = RegisterRequest::from_json(&json(r#"{ "http_url": "http://u" }"#));
    assert_eq!(refused, Err("missing field `name`".to_string()));
}

#[test]
fn requests_may_come_as_lists() {
    let q = RegisterRequest::from_json(&json(r#"["calc", "http://u", ["add"]]"#)).unwrap();
    assert_eq!((q.name.as_str(), q.http_url.as_str()), ("calc", "http://u"));
    assert_eq!(q.capabilities, vec!["add".to_string()]);
    assert!(q.metadata.is_empty());
    assert_eq!(
        RegisterRequest::from_json(&json(r#"["calc"]"#)).unwrap_err(),
        "invalid length 1, expected struct RegisterRequest with 4 elements"
    );
    let ev = EventRequest::from_json(&json(r#"["tick", 1]"#)).unwrap();
    assert_eq!((ev.event_type.as_str(), ev.payload), ("tick", json("1")));
    assert_eq!(
        EventRequest::from_json(&json(r#"["tick", 1, 2]"#)).unwrap_err(),
        "invalid length 3, expected fewer elements in array"
    );
    let call = JsonRpcRequest::from_json(&json(r#"["2.0", 1, "tools/list"]"#)).unwrap();
    assert_eq!((call.method.as_str(), call.id, call.params), ("tools/list", Some(json("1")), Json::Null));
    assert_eq!(
        JsonRpcRequest::from_json(&json(r#"["2.0"]"#)).unwrap_err(),
        "invalid length 2, expected struct JsonRpcRequest with 4 elements"
    );
}

// The dashboard.

#[test]
fn dashboard_config_defaults() {
    let cfg = DashboardConfig::default();
    assert_eq!(cfg.port, 7700);
    assert!(cfg.auth_token.is_none());
}

#[test]
fn accumulate_tokens() {
    let mut acc = TokenAccumulator::default();
    acc.add("researcher", 100, 200);
    acc.add("researcher", 50, 80);
    let snapshot = acc.snapshot();
    let entry = snapshot.get("researcher").unwrap();
    assert_eq!(entry.tokens_in, 150);
    assert_eq!(entry.tokens_out, 280);
}

fn counted(tokens_input: &str, tokens_output: &str) -> TextMap<String> {
    let mut labels = TextMap::new();
    labels.insert("tokens_input".to_string(), tokens_input.to_string());
    labels.insert("tokens_output".to_string(), tokens_output.to_string());
    labels
}

#[test]
fn tokens_are_told_in_the_labels_of_answers() {
    let told = reply_tokens(&counted("120", "007"));
    assert_eq!((told.tokens_in, told.tokens_out), (120, 7));
    let none = reply_tokens(&TextMap::new());
    assert_eq!((none.tokens_in, none.tokens_out), (0, 0));
    let odd = reply_tokens(&counted("-1", "18446744073709551616"));
    assert_eq!((odd.tokens_in, odd.tokens_out), (0, 0));
    let most = reply_tokens(&counted("18446744073709551615", ""));
    assert_eq!((most.tokens_in, most.tokens_out), (u64::MAX, 0));

    let mut acc = TokenAccumulator::new();
    acc.add_reply("writer", &counted("120", "7"));
    acc.add_reply("writer", &counted("30", "18446744073709551615"));
    acc.add_reply("other", &TextMap::new());
    let writer = acc.get("writer");
    assert_eq!((writer.tokens_in, writer.tokens_out), (150, u64::MAX));
    assert_eq!(acc.get("other").tokens_in, 0);
}

#[test]
fn numbers_are_read_back_from_their_digits() {
    for n in [0, 9, 10, 4096, u64::MAX] {
        assert_eq!(number(&decimal(n)), Some(n));
        assert_eq!(decimal(n), n.to_string());
    }
    assert_eq!(number("+1"), None);
    assert_eq!(number("1 "), None);
}

#[test]
fn snapshot_returns_all_nodes() {
    let mut acc = TokenAccumulator::default();
    acc.add("a", 1, 1);
    acc.add("b", 2, 2);
    assert_eq!(acc.snapshot().len(), 2);
}

#[test]
fn register_and_get_workflow_roundtrips() {
    let mut registry = AgentRegistry::new();
    registry.register(mk_node("solo", SpawnPolicy::PerRequest));
    let wf = Workflow::builder(&registry).entry("solo").build().unwrap();
    let mut state = AppState::new();
    state.register_workflow("wf-1", wf);
    assert!(state.get_workflow("wf-1").is_some());
    assert!(state.get_workflow("does-not-exist").is_none());
}

#[test]
fn get_agents_returns_json_with_registered_agent() {
    let mut reg = AgentRegistry::new();
    let mut node = mk_node("test-agent", SpawnPolicy::Singleton { max_queue: Some(5) });
    node.capabilities = vec!["summarize".to_string()];
    node.metadata.insert("model".to_string(), "some-model".to_string());
    reg.register(node);
    reg.register(mk_node("pooled", SpawnPolicy::Pool { size: 3 }));
    let mut state = AppState::new();
    state.tokens.add("test-agent", 4, 2);
    assert_eq!(
        state.agents_json(&reg).to_text(),
        concat_lines(&[
            r#"[{"capabilities":[],"metadata":{},"name":"pooled","spawn_policy":"Pool { size: 3 }","tokens_in":0,"tokens_out":0},"#,
            r#"{"capabilities":["summarize"],"metadata":{"model":"some-model"},"name":"test-agent","spawn_policy":"Singleton { max_queue: Some(5) }","tokens_in":4,"tokens_out":2}]"#,
        ])
    );
}

fn concat_lines(parts: &[&str]) -> String {
    parts.join("")
}

#[test]
fn auth_token_blocks_unauthenticated_requests() {
    let token = Some("secret".to_string());
    assert!(!check_auth(&token, None));
    assert!(!check_auth(&token, Some("secret")));
    assert!(!check_auth(&token, Some("Bearer other")));
    assert!(check_auth(&token, Some("Bearer secret")));
    assert!(check_auth(&None, None));
}

#[test]
fn runs_follow_the_events() {
    let mut state = AppState::new();
    let listed = |s: &AppState| s.workflows_json().to_text();
    state.apply_event(&SupervisorEvent::NodeSuspended {
        workflow_id: FRESH,
        node: "n".to_string(),
        session_id: "s".to_string(),
        approval_id: "a".to_string(),
        kind: "k".to_string(),
        prompt: "p".to_string(),
    });
    assert_eq!(listed(&state), "[]");
    state.apply_event(&SupervisorEvent::WorkflowStarted {
        workflow_id: FRESH,
        entries: vec!["n".to_string()],
    });
    let row = |status: &str| {
        format!(r#"[{{"entries":["n"],"status":"{status}","workflow_id":"{FRESH_TEXT}"}}]"#)
    };
    assert_eq!(listed(&state), row("running"));
    for (result, word) in [
        (Outcome::Suspended { workflow_id: FRESH }, "suspended"),
        (Outcome::Timeout { node: "n".to_string() }, "timeout"),
        (Outcome::Failed { node: "n".to_string(), error: "e".to_string() }, "failed"),
        (Outcome::Success(Json::Null), "done"),
    ] {
        state.apply_event(&SupervisorEvent::WorkflowFinished { workflow_id: FRESH, result });
        assert_eq!(listed(&state), row(word));
    }
}

#[test]
fn graphs_are_kept_by_id() {
    let mut state = AppState::new();
    assert_eq!(state.graph("w"), None);
    state.set_graph("w", "graph TD".to_string());
    assert_eq!(state.graph("w"), Some("graph TD".to_string()));
}

#[test]
fn health_is_told_as_json() {
    let event = SupervisorEvent::AgentHealthCheck {
        node: "n".to_string(),
        status: HealthStatus::Degraded { reason: "slow".to_string() },
    };
    assert_eq!(
        event.to_json().to_text(),
        r#"{"AgentHealthCheck":{"node":"n","status":{"Degraded":{"reason":"slow"}}}}"#
    );
    assert_eq!(HealthStatus::Healthy.to_json().to_text(), "\"Healthy\"");
}

// Jobs.

#[test]
fn create_then_complete_roundtrip() {
    let mut store = JobStore::new();
    store.create(1);
    assert!(matches!(store.get(&1), Some(JobState::Running)));
    store.complete(1, Outcome::Success(json(r#"{"ok": true}"#)));
    match store.get(&1) {
        Some(JobState::Done { result: Outcome::Success(v) }) => {
            assert_eq!(v.get("ok"), Some(&Json::Bool(true)))
        }
        other => panic!("expected Done/Success, got {other:?}"),
    }
}

#[test]
fn latest_completed_jobs_are_kept_with_their_outcomes() {
    let outcome = |n: u128| Outcome::Timeout { node: n.to_string() };
    let mut jobs = JobStore::new();
    jobs.create(9999);
    let last: u128 = JobStore::MAX_COMPLETED as u128 + 10;
    for n in 0..last {
        jobs.create(n);
        jobs.complete(n, outcome(n));
        assert_eq!(jobs.get(&n), Some(JobState::Done { result: outcome(n) }));
    }
    for n in 0..10 {
        assert_eq!(jobs.get(&n), None);
    }
    for n in 10..last {
        assert_eq!(jobs.get(&n), Some(JobState::Done { result: outcome(n) }));
    }
    assert_eq!(jobs.get(&9999), Some(JobState::Running));
}

#[test]
fn get_unknown_returns_none() {
    assert!(JobStore::new().get(&77).is_none());
}

#[test]
fn completed_jobs_are_capped_running_never_evicted() {
    let mut store = JobStore::new();
    let running: u128 = 1_000_000;
    store.create(running);
    let mut ids: Vec<u128> = Vec::new();
    for i in 0..=JobStore::MAX_COMPLETED {
        let id = i as u128;
        store.create(id);
        store.complete(id, Outcome::Success(Json::uint(1)));
        ids.push(id);
    }
    assert!(store.get(&ids[0]).is_none(), "oldest completed job must be evicted");
    assert!(store.get(ids.last().unwrap()).is_some(), "newest completed job retained");
    assert!(
        matches!(store.get(&running), Some(JobState::Running)),
        "a still-running job must never be evicted"
    );
}

// The tool interface.

fn engine() -> McpEngine {
    McpEngine::new(Orchestrator::new(RegistryStore::new(), ExecutionStore::new()))
}

fn request(id: Option<u64>, method: &str, params: &str) -> JsonRpcRequest {
    JsonRpcRequest {
        jsonrpc: "2.0".to_string(),
        id: id.map(Json::uint),
        method: method.to_string(),
        params: json(params),
    }
}

fn reply(handled: Handled) -> JsonRpcResponse {
    match handled {
        Handled::Reply(r) => r,
        other => panic!("expected a reply, got {other:?}"),
    }
}

fn content(r: &JsonRpcResponse) -> Json {
    let result = r.result.as_ref().unwrap();
    match result.get("content") {
        Some(Json::List(items)) => json(items[0].get("text").unwrap().as_str().unwrap()),
        other => panic!("expected content, got {other:?}"),
    }
}

fn call(tool: &str, arguments: &str) -> JsonRpcResponse {
    let params = format!(r#"{{ "name": "{tool}", "arguments": {arguments} }}"#);
    reply(handle_request(&mut engine(), request(Some(4), "tools/call", &params), FRESH, NOW))
}

#[test]
fn initialize_returns_server_info() {
    let resp =
        reply(handle_request(&mut engine(), request(Some(1), "initialize", "{}"), FRESH, NOW));
    let result = resp.result.unwrap();
    assert_eq!(
        result.get("serverInfo").unwrap().get("name").unwrap().as_str(),
        Some("aether-mcp")
    );
    assert!(matches!(
        result.get("capabilities").unwrap().get("tools"),
        Some(Json::Object(_))
    ));
}

#[test]
fn tools_list_lists_three_tools() {
    let resp =
        reply(handle_request(&mut engine(), request(Some(2), "tools/list", "{}"), FRESH, NOW));
    let result = resp.result.unwrap();
    let names: Vec<String> = match result.get("tools") {
        Some(Json::List(tools)) => tools
            .iter()
            .map(|t| t.get("name").unwrap().as_str().unwrap().to_string())
            .collect(),
        other => panic!("expected tools, got {other:?}"),
    };
    for tool in [
        "submit_goal",
        "get_result",
        "list_capabilities",
        "expire_gates",
        "list_recoverable",
        "recover_workflow",
    ] {
        assert!(names.contains(&tool.to_string()), "{tool}");
    }
    assert_eq!(result.get("tools"), Some(&tool_descriptors()));
}

#[test]
fn unknown_method_returns_method_not_found() {
    let resp = reply(handle_request(&mut engine(), request(Some(3), "nope", "{}"), FRESH, NOW));
    assert_eq!(resp.error.unwrap().code, -32601);
}

#[test]
fn notification_without_id_gets_no_response() {
    let req = request(None, "notifications/initialized", "{}");
    assert_eq!(handle_request(&mut engine(), req, FRESH, NOW), Handled::Silent);
}

#[test]
fn parse_error_yields_error_response_with_null_id() {
    let resp = reply(handle_message(&mut engine(), "not json", FRESH, NOW));
    assert_eq!(resp.error.unwrap().code, -32700);
    assert!(resp.id.is_none());
}

#[test]
fn message_that_was_not_read_is_a_parse_error() {
    let resp = reply(handle_parsed(&mut engine(), Err("why".to_string()), FRESH, NOW));
    assert_eq!(
        resp.to_json().to_text(),
        r#"{"error":{"code":-32700,"message":"parse error: why"},"id":null,"jsonrpc":"2.0"}"#
    );
    let read = request(Some(3), "nope", "{}");
    let resp = reply(handle_parsed(&mut engine(), Ok(read), FRESH, NOW));
    assert_eq!(resp.error.unwrap().code, -32601);
}

#[test]
fn answer_is_written_with_its_own_version() {
    let mut resp = JsonRpcResponse::result(Some(Json::uint(1)), Json::Null);
    assert_eq!(resp.to_json().to_text(), r#"{"id":1,"jsonrpc":"2.0","result":null}"#);
    resp.jsonrpc = "1.0";
    assert_eq!(resp.to_json().to_text(), r#"{"id":1,"jsonrpc":"1.0","result":null}"#);
}

#[test]
fn requests_need_few_rows() {
    let needed = |id: Option<u64>, tool: &str| {
        rows_needed(&request(id, "tools/call", &format!(r#"{{ "name": "{tool}" }}"#)))
    };
    assert_eq!(needed(Some(1), "list_capabilities"), Rows::Agents);
    assert_eq!(needed(Some(1), "expire_gates"), Rows::Executions);
    assert_eq!(needed(Some(1), "list_recoverable"), Rows::Executions);
    for tool in ["submit_goal", "get_result", "recover_workflow", "nope"] {
        assert_eq!(needed(Some(1), tool), Rows::Nothing);
    }
    assert_eq!(needed(None, "expire_gates"), Rows::Nothing);
    assert_eq!(rows_needed(&request(Some(1), "tools/list", "{}")), Rows::Nothing);
}

#[test]
fn rows_that_cannot_be_read_are_told() {
    let e = AetherError::RegistryError { message: "locked".to_string() };
    let told = failed_reply(Some(Json::uint(2)), &e).error.unwrap();
    assert_eq!((told.code, told.message), (-32000, e.to_string()));
}

#[test]
fn tools_call_list_capabilities_returns_empty_array() {
    assert_eq!(content(&call("list_capabilities", "{}")).to_text(), r#"{"capabilities":[]}"#);
}

#[test]
fn tools_call_expire_gates_returns_expired_list() {
    let parsed = content(&call("expire_gates", "{}"));
    assert_eq!(parsed.get("expired"), Some(&Json::List(vec![])));
}

#[test]
fn tools_call_list_recoverable_returns_empty_on_fresh_store() {
    let parsed = content(&call("list_recoverable", "{}"));
    assert_eq!(parsed.get("recoverable"), Some(&Json::List(vec![])));
}

#[test]
fn tools_call_recover_workflow_unknown_id_reports_failure() {
    let mut e = engine();
    let params = format!(
        r#"{{ "name": "recover_workflow", "arguments": {{ "workflow_id": "{FRESH_TEXT}" }} }}"#
    );
    let handled =
        handle_request(&mut e, request(Some(11), "tools/call", &params), FRESH, NOW);
    match handled {
        Handled::Recover { id, workflow_id } => {
            let outcome = match e.orchestrator.rebuild(workflow_id) {
                Err(o) => o,
                Ok(_) => panic!("nothing to rebuild"),
            };
            let resp = recovered_reply(id, &outcome);
            let text = content(&resp).to_text();
            assert!(text.contains("Failed") || text.contains("no such execution"));
        }
        other => panic!("expected a recovery, got {other:?}"),
    }
}

#[test]
fn get_result_unknown_id_is_an_error_not_success() {
    let resp = call("get_result", &format!(r#"{{ "workflow_id": "{FRESH_TEXT}" }}"#));
    assert!(resp.result.is_none(), "unknown id must not be a success result");
    assert_eq!(resp.error.unwrap().code, -32001);
}

#[test]
fn tool_calls_are_checked() {
    assert_eq!(call("dance", "{}").error.unwrap().code, -32602);
    assert_eq!(call("get_result", "{}").error.unwrap().code, -32602);
    assert_eq!(call("get_result", r#"{ "workflow_id": "x" }"#).error.unwrap().code, -32602);
    assert_eq!(call("submit_goal", "{}").error.unwrap().code, -32602);
}

#[test]
fn submitted_goal_runs_under_the_id_that_was_told() {
    let mut e = engine();
    let params = r#"{ "name": "submit_goal", "arguments": { "goal": "write" } }"#;
    match handle_request(&mut e, request(Some(5), "tools/call", params), FRESH, NOW) {
        Handled::Submitted { reply, workflow_id, goal } => {
            assert_eq!(workflow_id, FRESH);
            assert_eq!(goal, Json::text("write"));
            assert_eq!(
                content(&reply).get("workflow_id").unwrap().as_str(),
                Some(FRESH_TEXT)
            );
        }
        other => panic!("expected a submission, got {other:?}"),
    }
    assert!(matches!(e.get_result(FRESH), Some(JobState::Running)));
}

#[test]
fn submit_goal_without_planner_resolves_to_failed() {
    let mut e = engine();
    e.submit_goal(FRESH);
    let outcome = match e.orchestrator.plan_request(&json(r#"{ "goal": "x" }"#), 1) {
        Err(o) => o,
        Ok(_) => panic!("no planner is registered"),
    };
    e.complete_goal(FRESH, outcome);
    assert!(matches!(
        e.get_result(FRESH),
        Some(JobState::Done { result: Outcome::Failed { .. } })
    ));
}

fn line(text: &str) -> Option<String> {
    match handle_message(&mut engine(), text, FRESH, NOW) {
        Handled::Silent => None,
        other => Some(reply(other).to_json().to_text()),
    }
}

#[test]
fn process_line_handles_initialize() {
    let out = line(r#"{"jsonrpc":"2.0","id":1,"method":"initialize","params":{}}"#).unwrap();
    assert!(out.contains("aether-mcp"));
}

#[test]
fn process_line_reports_parse_error() {
    let out = line("not json").unwrap();
    assert!(out.contains("parse error"));
    assert!(out.contains("-32700"));
}

#[test]
fn process_line_suppresses_notifications() {
    assert!(line(r#"{"jsonrpc":"2.0","method":"notifications/initialized"}"#).is_none());
}

#[test]
fn post_initialize_over_http() {
    let out = line(r#"{"jsonrpc":"2.0","id":1,"method":"initialize","params":{}}"#).unwrap();
    let resp = json(&out);
    let info = resp.get("result").unwrap().get("serverInfo").unwrap();
    assert_eq!(info.get("name").unwrap().as_str(), Some("aether-mcp"));
    assert_eq!(resp.get("id").unwrap().as_u64(), Some(1));
}

#[test]
fn malformed_body_yields_jsonrpc_parse_error() {
    let resp = json(&line("not json").unwrap());
    assert_eq!(resp.get("error").unwrap().get("code").unwrap().to_text(), "-32700");
}

#[test]
fn recoverable_runs_are_listed() {
    let mut exec = ExecutionStore::new();
    exec.create_execution(FRESH_TEXT, "{}", "{}", &vec!["a".to_string()], "t").unwrap();
    exec.finish_execution(FRESH_TEXT, ExecutionStatus::Suspended, &None, &None, "t");
    let mut e = McpEngine::new(Orchestrator::new(RegistryStore::new(), exec));
    let params = r#"{ "name": "list_recoverable", "arguments": {} }"#;
    let resp =
        reply(handle_request(&mut e, request(Some(6), "tools/call", params), FRESH, NOW));
    let text = content(&resp).to_text();
    assert!(text.contains(FRESH_TEXT) && text.contains("suspended"), "{text}");
}

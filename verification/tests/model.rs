use aether::dag::DagSpec;
use aether::envelope::{payload_text, Envelope, EnvelopeKind};
use aether::error::{AetherError, Outcome};
use aether::graph::workflow_graph;
use aether::json::Json;
use aether::registry::AgentRegistry;
use aether::resume::{ApprovalDecision, ResumeRequest, SuspendPayload};
use aether::text_map::TextMap;
use aether::types::{
    AgentEndpoint, AgentNode, FailurePolicy, HttpAgentFactory, SpawnPolicy, StdioFactory,
    UnixSocketFactory,
};
use aether::workflow::{Answers, Edge, EdgePredicate, Workflow};
use std::time::Duration;

fn json(text: &str) -> Json {
    Json::parse(text).unwrap()
}

fn node(name: &str, caps: &[&str]) -> AgentNode {
    AgentNode {
        name: name.to_string(),
        capabilities: caps.iter().map(|s| s.to_string()).collect(),
        factory: AgentEndpoint::Local { key: name.to_string() },
        spawn: SpawnPolicy::PerRequest,
        failure: FailurePolicy::default(),
        timeout: Duration::from_secs(30),
        shutdown_grace: Duration::from_secs(5),
        metadata: TextMap::new(),
        gate_deadline_secs: None,
    }
}

fn reg(names: &[&str]) -> AgentRegistry {
    let mut r = AgentRegistry::new();
    for &n in names {
        r.register(node(n, &[]));
    }
    r
}

fn dag(nodes: &str) -> DagSpec {
    DagSpec::parse(&json(&format!("{{\"nodes\":{nodes}}}"))).unwrap()
}

fn message(e: AetherError) -> String {
    match e {
        AetherError::WorkflowError { message } => message,
        other => panic!("expected a workflow error, got {other:?}"),
    }
}

// Planned DAGs.

#[test]
fn parse_valid_dag() {
    let value = json(
        r#"{
            "nodes": [
                { "id": "n1", "capability": "research", "depends_on": [], "instruction": "do research" },
                { "id": "n2", "capability": "synthesize", "agent": null, "depends_on": ["n1"] }
            ]
        }"#,
    );
    let dag = DagSpec::parse(&value).unwrap();
    assert_eq!(dag.nodes.len(), 2);
    assert_eq!(dag.nodes[0].id, "n1");
    assert_eq!(dag.nodes[0].capability.as_deref(), Some("research"));
    assert_eq!(dag.nodes[0].instruction.as_deref(), Some("do research"));
    assert_eq!(dag.nodes[1].depends_on, vec!["n1".to_string()]);
    assert!(dag.nodes[1].agent.is_none());
}

#[test]
fn parse_rejects_non_object() {
    let value = json("\"not a dag\"");
    assert!(matches!(DagSpec::parse(&value), Err(AetherError::WorkflowError { .. })));
}

#[test]
fn validate_accepts_single_entry_dag() {
    let d = dag(
        r#"[
            { "id": "a", "capability": "x", "depends_on": [] },
            { "id": "b", "capability": "y", "depends_on": ["a"] }
        ]"#,
    );
    assert!(d.validate().is_ok());
    assert_eq!(d.entry_ids(), vec!["a"]);
}

#[test]
fn validate_rejects_empty() {
    let d = dag("[]");
    assert!(matches!(d.validate(), Err(AetherError::WorkflowError { .. })));
}

#[test]
fn validate_rejects_duplicate_id() {
    let d = dag(
        r#"[
            { "id": "a", "capability": "x", "depends_on": [] },
            { "id": "a", "capability": "y", "depends_on": [] }
        ]"#,
    );
    assert!(matches!(d.validate(), Err(AetherError::WorkflowError { .. })));
}

#[test]
fn validate_rejects_unknown_dependency() {
    let d = dag(r#"[{ "id": "a", "capability": "x", "depends_on": ["ghost"] }]"#);
    assert!(matches!(d.validate(), Err(AetherError::WorkflowError { .. })));
}

#[test]
fn validate_rejects_node_without_capability_or_agent() {
    let d = dag(r#"[{ "id": "a", "depends_on": [] }]"#);
    assert!(matches!(d.validate(), Err(AetherError::WorkflowError { .. })));
}

#[test]
fn validate_accepts_fan_in_to_single_terminal() {
    let d = dag(
        r#"[
            { "id": "a", "capability": "x", "depends_on": [] },
            { "id": "b", "capability": "y", "depends_on": ["a"] },
            { "id": "c", "capability": "z", "depends_on": ["a"] },
            { "id": "d", "capability": "w", "depends_on": ["b", "c"] }
        ]"#,
    );
    assert!(d.validate().is_ok());
    assert_eq!(d.terminal_ids(), vec!["d"]);
}

#[test]
fn validate_accepts_multiple_entries() {
    let d = dag(
        r#"[
            { "id": "a", "capability": "x", "depends_on": [] },
            { "id": "b", "capability": "y", "depends_on": [] },
            { "id": "c", "capability": "z", "depends_on": ["a", "b"] }
        ]"#,
    );
    assert!(d.validate().is_ok());
    let mut ids = d.entry_ids();
    ids.sort();
    assert_eq!(ids, vec!["a", "b"]);
}

#[test]
fn validate_accepts_multiple_terminals() {
    let d = dag(
        r#"[
            { "id": "root", "capability": "x", "depends_on": [] },
            { "id": "a", "capability": "y", "depends_on": ["root"] },
            { "id": "b", "capability": "z", "depends_on": ["root"] }
        ]"#,
    );
    assert!(d.validate().is_ok());
    let mut ids = d.terminal_ids();
    ids.sort();
    assert_eq!(ids, vec!["a", "b"]);
}

#[test]
fn metadata_field_round_trips() {
    let value = json(
        r#"{
            "nodes": [{
                "id": "n1",
                "capability": "fetch",
                "depends_on": [],
                "metadata": { "url": "https://example.com", "timeout_ms": "5000" }
            }]
        }"#,
    );
    let dag = DagSpec::parse(&value).unwrap();
    assert_eq!(dag.nodes[0].metadata.get("url").unwrap(), "https://example.com");
    assert_eq!(dag.nodes[0].metadata.get("timeout_ms").unwrap(), "5000");
}

#[test]
fn metadata_defaults_to_empty() {
    let d = dag(r#"[{ "id": "a", "capability": "x", "depends_on": [] }]"#);
    assert!(d.nodes[0].metadata.is_empty());
}

#[test]
fn terminal_ids_returns_leaf_nodes() {
    let d = dag(
        r#"[
            { "id": "a", "capability": "x", "depends_on": [] },
            { "id": "b", "capability": "y", "depends_on": ["a"] }
        ]"#,
    );
    assert_eq!(d.terminal_ids(), vec!["b"]);
}

#[test]
fn dag_text_reads_back_as_the_dag() {
    let d = dag(
        r#"[
            { "id": "a", "capability": "x", "depends_on": [], "metadata": { "k": "v" } },
            { "id": "b", "agent": "writer", "depends_on": ["a"], "instruction": "go",
              "gate_deadline_secs": 90 }
        ]"#,
    );
    let back = DagSpec::parse(&json(&d.to_text())).unwrap();
    assert_eq!(back, d);
    assert_eq!(back.nodes[1].gate_deadline_secs, Some(90));
}

#[test]
fn dag_errors_name_the_fault() {
    assert_eq!(message(dag("[]").validate().unwrap_err()), "DAG has no nodes");
    let faulty = dag(r#"[{ "id": "a", "capability": "x", "depends_on": ["ghost"] }]"#);
    let text = message(faulty.validate().unwrap_err());
    assert!(text.contains("'a'") && text.contains("'ghost'"), "{text}");
    let missing = DagSpec::parse(&json(r#"{ "nodes": [{ "capability": "x" }] }"#)).unwrap_err();
    assert!(message(missing).contains("missing field `id`"));
}

// Errors and outcomes.

#[test]
fn agent_failed_display() {
    let e = AetherError::AgentFailed {
        node: "writer".into(),
        message: "out of memory".into(),
    };
    assert_eq!(e.to_string(), "agent 'writer' failed: out of memory");
}

#[test]
fn agent_timeout_display() {
    let e = AetherError::AgentTimeout { node: "researcher".into() };
    assert_eq!(e.to_string(), "agent 'researcher' timed out");
}

#[test]
fn transport_error_display() {
    let e = AetherError::TransportError {
        node: "intake".into(),
        message: "broken pipe".into(),
    };
    assert_eq!(e.to_string(), "transport error on 'intake': broken pipe");
}

#[test]
fn registry_error_display() {
    let e = AetherError::RegistryError { message: "unknown node 'foo'".into() };
    assert_eq!(e.to_string(), "registry error: unknown node 'foo'");
}

#[test]
fn workflow_error_display() {
    let e = AetherError::WorkflowError { message: "cycle detected".into() };
    assert_eq!(e.to_string(), "workflow error: cycle detected");
}

#[test]
fn outcome_success_roundtrip() {
    let o = Outcome::Success(json(r#"{"answer": 42}"#));
    let text = o.to_json().to_text();
    match Outcome::from_json(&json(&text)) {
        Some(Outcome::Success(v)) => assert_eq!(v.get("answer").unwrap().as_u64(), Some(42)),
        _ => panic!("expected Success"),
    }
}

#[test]
fn outcome_failed_roundtrip() {
    let o = Outcome::Failed { node: "writer".into(), error: "out of memory".into() };
    let text = o.to_json().to_text();
    match Outcome::from_json(&json(&text)) {
        Some(Outcome::Failed { node, error }) => {
            assert_eq!(node, "writer");
            assert_eq!(error, "out of memory");
        }
        _ => panic!("expected Failed"),
    }
}

#[test]
fn outcome_timeout_roundtrip() {
    let o = Outcome::Timeout { node: "researcher".into() };
    let text = o.to_json().to_text();
    match Outcome::from_json(&json(&text)) {
        Some(Outcome::Timeout { node }) => assert_eq!(node, "researcher"),
        _ => panic!("expected Timeout"),
    }
}

#[test]
fn outcome_suspended_keeps_its_id() {
    let o = Outcome::Suspended { workflow_id: 0x0123_4567_89ab_cdef_0123_4567_89ab_cdef };
    let text = o.to_json().to_text();
    assert_eq!(
        text,
        r#"{"Suspended":{"workflow_id":"01234567-89ab-cdef-0123-456789abcdef"}}"#
    );
    assert_eq!(Outcome::from_json(&json(&text)), Some(o));
    assert_eq!(Outcome::from_json(&json(r#"{"Nope":{}}"#)), None);
}

// Payloads and envelopes.

#[test]
fn payload_text_reads_known_keys_and_falls_back() {
    assert_eq!(payload_text(&json("\"plain\"")), "plain");
    assert_eq!(payload_text(&json(r#"{ "goal": "g" }"#)), "g");
    assert_eq!(payload_text(&json(r#"{ "output": "o" }"#)), "o");
    assert_eq!(payload_text(&json(r#"{ "input": "i" }"#)), "i");
    assert_eq!(payload_text(&json(r#"{ "message": "m" }"#)), "m");
}

#[test]
fn payload_text_joins_fan_in_map_and_array() {
    let fan_in = json(r#"{ "pros": { "output": "A" }, "cons": { "output": "B" } }"#);
    let joined = payload_text(&fan_in);
    assert!(joined.contains('A') && joined.contains('B') && joined.contains("---"));
    assert_eq!(
        payload_text(&json(r#"[{ "output": "A" }, { "output": "B" }]"#)),
        "A\n\n---\n\nB"
    );
}

#[test]
fn payload_text_writes_other_values_as_json() {
    assert_eq!(payload_text(&json("42")), "42");
    assert_eq!(payload_text(&json("null")), "null");
    assert_eq!(payload_text(&json("[true, 1]")), "true\n\n---\n\n1");
}

#[test]
fn envelope_reads_back_from_its_json() {
    let mut labels = TextMap::new();
    labels.insert("node".to_string(), "writer".to_string());
    let env = Envelope::invoke(7, json(r#"{"message":"hi"}"#), labels);
    assert_eq!(env.kind, EnvelopeKind::Invoke);
    let text = env.to_json().to_text();
    assert_eq!(
        text,
        r#"{"id":"00000000-0000-0000-0000-000000000007","kind":"invoke","metadata":{"node":"writer"},"payload":{"message":"hi"}}"#
    );
    assert_eq!(Envelope::from_json(&json(&text)), Ok(env));
}

#[test]
fn envelope_of_an_unknown_kind_is_refused() {
    let v = json(
        r#"{"id":"00000000-0000-0000-0000-000000000007","kind":"dance","payload":null,"metadata":{}}"#,
    );
    assert!(Envelope::from_json(&v).unwrap_err().contains("dance"));
}

// Decisions.

#[test]
fn suspend_payload_roundtrips() {
    let p = SuspendPayload {
        session_id: "s1".into(),
        approval_id: "a1".into(),
        kind: "tool_approval".into(),
        prompt: "Approve deleting file X?".into(),
        gate_deadline: None,
    };
    let text = p.to_json().to_text();
    let back = SuspendPayload::from_json(&json(&text)).unwrap();
    assert_eq!(p, back);
}

#[test]
fn resume_request_serializes_decision() {
    let req = ResumeRequest {
        session_id: "s1".into(),
        approval_id: "a1".into(),
        decision: ApprovalDecision::Rejected { reason: Some("no".into()) },
    };
    let value = req.to_json();
    let decision = value.get("decision").unwrap();
    assert_eq!(decision.get("type").unwrap().as_str(), Some("rejected"));
    assert_eq!(decision.get("reason").unwrap().as_str(), Some("no"));
}

#[test]
fn suspend_payload_matches_golden_fixture() {
    let fixture = r#"{
        "session_id": "sess-1",
        "approval_id": "appr-1",
        "kind": "tool_approval",
        "prompt": "Approve deleting file X?"
    }"#;
    let expected = json(fixture);
    let parsed = SuspendPayload::from_json(&expected).unwrap();
    assert_eq!(parsed.to_json(), expected);
}

#[test]
fn resume_request_matches_golden_fixtures() {
    for fixture in [
        r#"{ "session_id": "sess-1", "approval_id": "appr-1", "decision": { "type": "approved" } }"#,
        r#"{ "session_id": "sess-1", "approval_id": "appr-1", "decision": { "type": "rejected", "reason": "too risky" } }"#,
        r#"{ "session_id": "sess-1", "approval_id": "appr-1", "decision": { "type": "modified", "payload": { "path": "/tmp/y" } } }"#,
    ] {
        let expected = json(fixture);
        let parsed = ResumeRequest::from_json(&expected).unwrap();
        assert_eq!(parsed.to_json(), expected);
    }
}

#[test]
fn suspend_payload_names_a_missing_field() {
    let v = json(r#"{ "session_id": "s", "kind": "k", "prompt": "p" }"#);
    assert_eq!(SuspendPayload::from_json(&v), Err("missing field `approval_id`".to_string()));
    assert_eq!(
        SuspendPayload::from_json(&json("[1]")).unwrap_err(),
        "invalid type: integer `1`, expected a string"
    );
    assert_eq!(
        SuspendPayload::from_json(&json("7")).unwrap_err(),
        "invalid type: integer `7`, expected struct SuspendPayload"
    );
    assert_eq!(
        SuspendPayload::from_json(&json(r#""a\"b""#)).unwrap_err(),
        "invalid type: string \"a\\\"b\", expected struct SuspendPayload"
    );
}

#[test]
fn fields_may_come_as_a_list() {
    let gate = SuspendPayload::from_json(&json(r#"["s", "a", "k", "p"]"#)).unwrap();
    assert_eq!((gate.session_id.as_str(), gate.prompt.as_str()), ("s", "p"));
    assert_eq!(gate.gate_deadline, None);
    let dated = SuspendPayload::from_json(&json(r#"["s", "a", "k", "p", "d"]"#)).unwrap();
    assert_eq!(dated.gate_deadline.as_deref(), Some("d"));
    assert_eq!(
        SuspendPayload::from_json(&json(r#"["s", "a"]"#)).unwrap_err(),
        "invalid length 2, expected struct SuspendPayload with 5 elements"
    );
    assert_eq!(
        SuspendPayload::from_json(&json(r#"["s", "a", "k", "p", null, 1]"#)).unwrap_err(),
        "invalid length 6, expected fewer elements in array"
    );

    let d = DagSpec::parse(&json(r#"[[["n1", "research"], ["n2", null, "writer", ["n1"]]]]"#)).unwrap();
    assert_eq!(d.nodes[0].capability.as_deref(), Some("research"));
    assert_eq!(d.nodes[1].agent.as_deref(), Some("writer"));
    assert_eq!(d.nodes[1].depends_on, vec!["n1".to_string()]);
    assert_eq!(
        message(DagSpec::parse(&json("[]")).unwrap_err()),
        "invalid DAG JSON: invalid length 0, expected struct DagSpec with 1 element"
    );
    assert_eq!(
        message(DagSpec::parse(&json(r#"{"nodes": [[]]}"#)).unwrap_err()),
        "invalid DAG JSON: invalid length 0, expected struct DagNode with 7 elements"
    );
    assert_eq!(
        message(DagSpec::parse(&json("[[], 1]")).unwrap_err()),
        "invalid DAG JSON: invalid length 2, expected fewer elements in array"
    );

    let id = "00000000-0000-0000-0000-000000000007";
    let env = Envelope::from_json(&json(&format!(r#"["{id}", "result", 5, {{}}]"#))).unwrap();
    assert_eq!((env.id, env.kind, env.payload.as_u64()), (7, EnvelopeKind::Result, Some(5)));
    assert_eq!(
        Envelope::from_json(&json(&format!(r#"["{id}"]"#))).unwrap_err(),
        "invalid length 1, expected struct Envelope with 4 elements"
    );

    assert_eq!(
        ApprovalDecision::from_json(&json(r#"["approved"]"#)),
        Some(ApprovalDecision::Approved)
    );
    assert_eq!(
        ApprovalDecision::from_json(&json(r#"["rejected", "no"]"#)),
        Some(ApprovalDecision::Rejected { reason: Some("no".to_string()) })
    );
    assert_eq!(
        ApprovalDecision::from_json(&json(r#"["modified", 3]"#)),
        Some(ApprovalDecision::Modified { payload: json("3") })
    );
    assert_eq!(ApprovalDecision::from_json(&json(r#"["rejected"]"#)), None);
    assert_eq!(ApprovalDecision::from_json(&json(r#"["approved", 1]"#)), None);
    let q = ResumeRequest::from_json(&json(r#"["s", "a", { "type": "approved" }]"#)).unwrap();
    assert_eq!((q.session_id.as_str(), q.decision), ("s", ApprovalDecision::Approved));
    assert_eq!(ResumeRequest::from_json(&json(r#"["s", "a"]"#)), None);

    assert_eq!(
        Outcome::from_json(&json(r#"{"Failed": ["n", "boom"]}"#)),
        Some(Outcome::Failed { node: "n".to_string(), error: "boom".to_string() })
    );
    assert_eq!(
        Outcome::from_json(&json(r#"{"Timeout": ["n"]}"#)),
        Some(Outcome::Timeout { node: "n".to_string() })
    );
    assert_eq!(Outcome::from_json(&json(r#"{"Timeout": ["n", "m"]}"#)), None);
}

#[test]
fn kind_may_come_as_an_object() {
    let with_kind = |kind: &str| {
        Envelope::from_json(&json(&format!(
            r#"{{
                "id": "00000000-0000-0000-0000-000000000007",
                "kind": {kind}, "payload": null, "metadata": {{}}
            }}"#
        )))
    };
    assert_eq!(with_kind(r#"{"result": null}"#).unwrap().kind, EnvelopeKind::Result);
    assert_eq!(with_kind(r#""suspended""#).unwrap().kind, EnvelopeKind::Suspended);
    assert_eq!(
        with_kind(r#"{"result": 1}"#).unwrap_err(),
        "invalid type: integer `1`, expected unit"
    );
    assert_eq!(
        with_kind(r#"{"maybe": null}"#).unwrap_err(),
        "unknown variant `maybe`, expected one of `invoke`, `result`, `error`, `suspended`"
    );
    assert_eq!(
        with_kind("{}").unwrap_err(),
        "invalid value: map, expected map with a single key"
    );
    assert_eq!(with_kind("[]").unwrap_err(), "invalid type: sequence, expected string or map");
}

#[test]
fn bad_id_is_told_in_full() {
    let env = json(r#"{ "id": "xyz", "kind": "result", "payload": null, "metadata": {} }"#);
    let e = Envelope::from_json(&env).unwrap_err();
    assert_eq!(e, format!("UUID parsing failed: {}", uuid::Uuid::parse_str("xyz").unwrap_err()));
}

// Agents.

#[test]
fn failure_policy_default() {
    let fp = FailurePolicy::default();
    assert_eq!(fp.retries, 0);
    assert!(!fp.restart_on_failure);
    assert!(fp.fallback.is_none());
}

#[test]
fn spawn_policy_singleton_unbounded() {
    let sp = SpawnPolicy::Singleton { max_queue: None };
    assert!(matches!(sp, SpawnPolicy::Singleton { max_queue: None }));
}

#[test]
fn register_and_get() {
    let mut reg = AgentRegistry::new();
    reg.register(node("writer", &["write"]));
    assert!(reg.get("writer").is_some());
    assert!(reg.get("unknown").is_none());
}

#[test]
fn find_capable() {
    let mut reg = AgentRegistry::new();
    reg.register(node("hr-agent", &["hr", "policy"]));
    reg.register(node("legal-agent", &["legal"]));
    let found = reg.find_capable("hr");
    assert_eq!(found.len(), 1);
    assert_eq!(found[0].name, "hr-agent");
}

#[test]
fn list_all() {
    let mut reg = AgentRegistry::new();
    reg.register(node("a", &[]));
    reg.register(node("b", &[]));
    assert_eq!(reg.list().len(), 2);
}

#[test]
fn registering_a_name_again_replaces_the_agent() {
    let mut reg = AgentRegistry::new();
    reg.register(node("a", &["old"]));
    reg.register(node("a", &["new"]));
    assert_eq!(reg.list().len(), 1);
    assert_eq!(reg.get("a").unwrap().capabilities, vec!["new".to_string()]);
}

#[test]
fn stdio_factory_is_send_sync() {
    fn assert_send_sync<T: Send + Sync>() {}
    assert_send_sync::<StdioFactory>();
    assert_send_sync::<HttpAgentFactory>();
    assert_send_sync::<UnixSocketFactory>();
}

// Workflows.

#[test]
fn explicit_entry_single_node_builds() {
    let r = reg(&["solo"]);
    let wf = Workflow::builder(&r).entry("solo").build().unwrap();
    assert_eq!(wf.entries, vec!["solo".to_string()]);
    assert_eq!(wf.edges.len(), 0);
}

#[test]
fn explicit_entry_preserved_when_edges_added() {
    let r = reg(&["root", "a", "b"]);
    let wf = Workflow::builder(&r)
        .entry("root")
        .edge("root", "a")
        .edge("root", "b")
        .build()
        .unwrap();
    assert_eq!(wf.entries, vec!["root".to_string()]);
    assert_eq!(wf.edges.len(), 2);
}

#[test]
fn named_entry_takes_the_place_of_one_from_an_edge() {
    let r = reg(&["a", "b", "c", "d"]);
    let wf = Workflow::builder(&r).edge("a", "b").entry("c").build().unwrap();
    assert_eq!(wf.entries, vec!["c".to_string()]);
    let two = Workflow::builder(&r).edge("a", "b").entry("c").entry("d").edge("d", "b").build().unwrap();
    assert_eq!(two.entries, vec!["c".to_string(), "d".to_string()]);
    let tested = Workflow::builder(&r).conditional("a", "b", 0).entry("c").build().unwrap();
    assert_eq!(tested.entries, vec!["c".to_string()]);
}

#[test]
fn entry_named_twice_is_one_entry() {
    let r = reg(&["a", "b"]);
    let wf = Workflow::builder(&r).entry("a").entry("b").entry("a").build().unwrap();
    assert_eq!(wf.entries, vec!["a".to_string(), "b".to_string()]);
    let named = Workflow::builder(&r).edge("a", "b").entry("a").entry("a").build().unwrap();
    assert_eq!(named.entries, vec!["a".to_string()]);
}

#[test]
fn builder_keeps_every_edge_in_order() {
    let r = reg(&["a", "b", "c"]);
    let wf = Workflow::builder(&r)
        .edge("a", "b")
        .entry("a")
        .edge("a", "b")
        .conditional("b", "c", 0)
        .build()
        .unwrap();
    let ends: Vec<(&str, &str)> =
        wf.edges.iter().map(|e| (e.from.as_str(), e.to.as_str())).collect();
    assert_eq!(ends, vec![("a", "b"), ("a", "b"), ("b", "c")]);
    assert!(wf.edges[2].when.is_some() && wf.edges[1].when.is_none());
}

#[test]
fn simple_chain_builds() {
    let r = reg(&["a", "b", "c"]);
    let wf = Workflow::builder(&r).edge("a", "b").edge("b", "c").build().unwrap();
    assert_eq!(wf.entries, vec!["a".to_string()]);
    assert_eq!(wf.edges.len(), 2);
}

#[test]
fn cycle_rejected() {
    let r = reg(&["a", "b"]);
    let result = Workflow::builder(&r).edge("a", "b").edge("b", "a").build();
    assert!(matches!(result, Err(AetherError::WorkflowError { .. })));
}

#[test]
fn unknown_node_rejected() {
    let r = reg(&["a"]);
    let result = Workflow::builder(&r).edge("a", "ghost").build();
    assert!(matches!(result, Err(AetherError::RegistryError { .. })));
}

#[test]
fn fan_out_fan_in_builds() {
    let r = reg(&["intake", "researcher", "validator", "writer"]);
    let wf = Workflow::builder(&r)
        .edge("intake", "researcher")
        .edge("intake", "validator")
        .edge("researcher", "writer")
        .edge("validator", "writer")
        .build()
        .unwrap();
    assert_eq!(wf.outgoing("intake").len(), 2);
    assert_eq!(wf.incoming("writer").len(), 2);
}

#[test]
fn outgoing_edge_ordering_preserved() {
    let r = reg(&["router", "a", "b"]);
    let wf = Workflow::builder(&r).edge("router", "a").edge("router", "b").build().unwrap();
    let out = wf.outgoing("router");
    assert_eq!(out[0].to, "a");
    assert_eq!(out[1].to, "b");
}

#[test]
fn workflow_without_edges_is_refused() {
    let r = reg(&["a"]);
    assert!(matches!(
        Workflow::builder(&r).build(),
        Err(AetherError::WorkflowError { .. })
    ));
}

#[test]
fn cycle_away_from_the_entry_is_rejected() {
    let r = reg(&["a", "b", "c", "d"]);
    let result = Workflow::builder(&r)
        .edge("a", "b")
        .edge("b", "c")
        .edge("c", "d")
        .edge("d", "b")
        .build();
    assert!(matches!(result, Err(AetherError::WorkflowError { .. })));
    let loops = Workflow::builder(&r).entry("a").edge("a", "a").build();
    assert!(matches!(loops, Err(AetherError::WorkflowError { .. })));
}

#[test]
fn router_edge_follows_the_capability_that_was_read() {
    let edge = Edge {
        from: "router".to_string(),
        to: "hr".to_string(),
        when: Some(EdgePredicate::Serves {
            extractor: 0,
            capabilities: vec!["hr".to_string(), "policy".to_string()],
        }),
    };
    let asks = |what: &str| Answers { tests: vec![], capabilities: vec![what.to_string()] };
    assert!(edge.fires(&asks("policy")));
    assert!(!edge.fires(&asks("legal")));
}

#[test]
fn registered_router_is_an_agent_like_the_others() {
    let mut r = reg(&["router"]);
    r.register(node("hr", &["hr", "policy"]));
    let result = Workflow::builder(&r).capability_router("router", 0).build();
    assert!(matches!(result, Err(AetherError::WorkflowError { .. })));
}

#[test]
fn conditional_edge_follows_its_test() {
    let r = reg(&["a", "b"]);
    let wf = Workflow::builder(&r).conditional("a", "b", 1).build().unwrap();
    let yes = Answers { tests: vec![false, true], capabilities: vec![] };
    let no = Answers { tests: vec![true, false], capabilities: vec![] };
    assert!(wf.edges[0].fires(&yes));
    assert!(!wf.edges[0].fires(&no));
}

// JSON values.

#[test]
fn json_text_reads_back_as_the_value() {
    let text = r#"{"a":[1,-2,3.5,true,null,"x\ny"],"b":{"c":18446744073709551615}}"#;
    let v = json(text);
    assert_eq!(v.to_text(), text);
    assert_eq!(v.get("b").unwrap().get("c").unwrap().as_u64(), Some(u64::MAX));
    let inner = v.get("a").unwrap();
    assert!(matches!(inner, Json::List(items) if items[1].as_u64().is_none()));
    assert!(Json::parse("not json").is_err());
    assert_eq!(Json::uint(5).to_text(), "5");
    assert_eq!(Json::integer(-32700).to_text(), "-32700");
}

#[test]
fn no_key_has_a_meaning_of_its_own() {
    let text = r#"{"$serde_json::private::RawValue":"[1]"}"#;
    let v = json(text);
    assert_eq!(v.get("$serde_json::private::RawValue").unwrap().as_str(), Some("[1]"));
    assert_eq!(json(&v.to_text()), v);
    let number = json(r#"{"$serde_json::private::Number":"1"}"#);
    assert_eq!(json(&number.to_text()), number);
    let d = DagSpec::parse(&json(&format!(
        r#"{{ "nodes": [{{ "id": "a", "capability": "x", "metadata": {text} }}] }}"#
    )))
    .unwrap();
    assert_eq!(DagSpec::parse(&json(&d.to_text())).unwrap(), d);
}

#[test]
fn text_map_is_ordered_by_key() {
    let mut m: TextMap<u64> = TextMap::new();
    m.insert("b".to_string(), 1);
    m.insert("a".to_string(), 2);
    m.insert("b".to_string(), 3);
    assert_eq!(m.len(), 2);
    assert_eq!(m.at(0), (&"a".to_string(), &2));
    assert_eq!(m.get("b"), Some(&3));
    m.remove("a");
    assert!(!m.contains_key("a"));
    assert_eq!(m.len(), 1);
}

#[test]
fn fraction_is_no_number_of_seconds() {
    let dag = DagSpec::parse(&json(
        r#"{ "nodes": [{ "id": "a", "capability": "x", "gate_deadline_secs": 1.5 }] }"#,
    ));
    let text = message(dag.unwrap_err());
    assert!(text.contains("floating point `1.5`, expected u64"), "{text}");
}

// Drawings.

#[test]
fn workflow_is_drawn_from_the_top_down() {
    let r = reg(&["a", "b", "c", "lone"]);
    let wf = Workflow::builder(&r)
        .entry("a")
        .entry("lone")
        .edge("a", "b")
        .conditional("b", "c", 0)
        .build()
        .unwrap();
    assert_eq!(workflow_graph(&wf), "graph TD\n    lone\n    a --> b\n    b -.-> c");
}

#[test]
fn every_agent_stands_under_its_own_name() {
    let r = reg(&["b", "a"]);
    for name in ["a", "b"] {
        assert_eq!(r.get(name).unwrap().name, name);
    }
    let names: Vec<String> = r.list().into_iter().map(|n| n.name).collect();
    assert_eq!(names, vec!["a".to_string(), "b".to_string()]);
    assert!(AgentRegistry::new().list().is_empty());
}

#[test]
fn dag_lies_between_its_ends() {
    let d = dag(
        r#"[
            { "id": "a", "capability": "x" },
            { "id": "b", "capability": "x", "depends_on": ["a"] },
            { "id": "c", "capability": "x", "depends_on": ["a", "b"] },
            { "id": "d", "capability": "x" }
        ]"#,
    );
    assert_eq!(d.entry_ids(), vec!["a", "d"]);
    assert_eq!(d.terminal_ids(), vec!["c", "d"]);
}

use aether::clock::Instant;
use aether::dag::DagSpec;
use aether::envelope::{Envelope, EnvelopeKind};
use aether::error::{AetherError, Outcome};
use aether::events::SupervisorEvent;
use aether::execution_store::{ExecutionNodeRecord, ExecutionStatus, ExecutionStore, NodeStatus};
use aether::json::Json;
use aether::orchestrator::{
    build_registry_and_workflow, dag_from_planner_result, find_named, registration_to_node,
    resolve_capability, Orchestrator,
};
use aether::registry::AgentRegistry;
use aether::registry_store::{RegistrationEntry, RegistryStatus, RegistryStore};
use aether::resume::ApprovalDecision;
use aether::supervisor::{serialize_workflow_spec, Attempt, Drive, Resumed, Supervisor};
use aether::text_map::TextMap;
use aether::transport::flatten;
use aether::types::{
    AgentEndpoint, AgentNode, FailurePolicy, HttpAgentFactory, SpawnPolicy,
};
use aether::workflow::{Answers, Workflow};
use std::time::Duration;

const WID: u128 = 0x0000_0000_0000_4000_8000_0000_0000_0001;
const WID_TEXT: &str = "00000000-0000-4000-8000-000000000001";
// 2026-06-01T00:00:00+00:00
const NOW: Instant = Instant { secs: 1_780_272_000, nanos: 0 };

fn later(secs: i64) -> Instant {
    Instant { secs: NOW.secs + secs, nanos: 0 }
}

fn json(text: &str) -> Json {
    Json::parse(text).unwrap()
}

fn mk_node(name: &str) -> AgentNode {
    AgentNode {
        name: name.to_string(),
        capabilities: vec![],
        factory: AgentEndpoint::Local { key: name.to_string() },
        spawn: SpawnPolicy::PerRequest,
        failure: FailurePolicy::default(),
        timeout: Duration::from_secs(5),
        shutdown_grace: Duration::from_secs(1),
        metadata: TextMap::new(),
        gate_deadline_secs: None,
    }
}

fn reg(names: &[&str]) -> AgentRegistry {
    let mut r = AgentRegistry::new();
    for &n in names {
        r.register(mk_node(n));
    }
    r
}

fn entry_only(name: &str) -> Workflow {
    Workflow { entries: vec![name.to_string()], edges: vec![] }
}

fn supervisor(r: AgentRegistry) -> Supervisor {
    Supervisor::with_store(r, ExecutionStore::new(), "driver".to_string())
}

type Reply = Result<Envelope, AetherError>;

fn echo(msg: &Envelope) -> Reply {
    Ok(Envelope { kind: EnvelopeKind::Result, ..msg.clone() })
}

fn answer(msg: &Envelope, kind: EnvelopeKind, payload: &str) -> Reply {
    Ok(Envelope { kind, payload: json(payload), ..msg.clone() })
}

fn no_conditions(_: &Envelope) -> Answers {
    Answers { tests: vec![], capabilities: vec![] }
}

/// One task with the failure policy of its node.
fn attempt(
    sup: &mut Supervisor,
    wid: u128,
    node: &AgentNode,
    msg: &Envelope,
    agent: &mut dyn FnMut(&AgentNode, &Envelope) -> Reply,
) -> Reply {
    let mut n: usize = 0;
    loop {
        let reply = agent(node, msg);
        match sup.judge_attempt(wid, node, n, reply) {
            Attempt::Settled(r) => return r,
            Attempt::Retry { .. } => n += 1,
            Attempt::Fallback { node: other } => return agent(&other, msg),
        }
    }
}

/// Hand out nodes until none is ready, and close the run.
fn drive(
    sup: &mut Supervisor,
    wf: &Workflow,
    mut d: Drive,
    agent: &mut dyn FnMut(&AgentNode, &Envelope) -> Reply,
    answers: &dyn Fn(&Envelope) -> Answers,
) -> Outcome {
    let wid = d.workflow_id;
    let mut envelope_id: u128 = 100;
    while let Some(tasks) = sup.next_level(&mut d, NOW) {
        for (name, payload) in tasks {
            envelope_id += 1;
            let reply = match sup.dispatch(wid, &name, payload, envelope_id, NOW) {
                Ok((node, msg)) => attempt(sup, wid, &node, &msg, agent),
                Err(e) => Err(e),
            };
            let said = match &reply {
                Ok(env) => answers(env),
                Err(_) => Answers { tests: vec![], capabilities: vec![] },
            };
            if let Some(o) = sup.on_task(&mut d, wf, &name, reply, envelope_id, 1, &said, NOW) {
                return sup.conclude(wid, Ok(o));
            }
        }
    }
    let end = sup.finalize(wf, wid, NOW);
    sup.conclude(wid, end)
}

fn run_with(
    sup: &mut Supervisor,
    wf: &Workflow,
    payload: &str,
    agent: &mut dyn FnMut(&AgentNode, &Envelope) -> Reply,
    answers: &dyn Fn(&Envelope) -> Answers,
) -> Outcome {
    let spec = serialize_workflow_spec(wf);
    match sup.start(WID, wf, &json(payload), &spec, NOW) {
        Ok(d) => drive(sup, wf, d, agent, answers),
        Err(o) => o,
    }
}

fn run(sup: &mut Supervisor, wf: &Workflow, payload: &str) -> Outcome {
    run_with(sup, wf, payload, &mut |_, m| echo(m), &no_conditions)
}

fn success(o: Outcome) -> Json {
    match o {
        Outcome::Success(v) => v,
        other => panic!("expected Success, got {other:?}"),
    }
}

fn nodes(sup: &Supervisor) -> Vec<ExecutionNodeRecord> {
    sup.store().load_execution(WID_TEXT).unwrap().1
}

fn record(sup: &Supervisor, id: &str) -> ExecutionNodeRecord {
    nodes(sup).into_iter().find(|n| n.node_id == id).unwrap()
}

fn status(sup: &Supervisor) -> ExecutionStatus {
    sup.store().load_execution(WID_TEXT).unwrap().0.status
}

const GATE: &str =
    r#"{ "session_id": "s1", "approval_id": "a1", "kind": "phase_gate", "prompt": "ok?" }"#;

// Runs.

#[test]
fn single_node_workflow_returns_payload() {
    let mut sup = supervisor(reg(&["only"]));
    let outcome = run(&mut sup, &entry_only("only"), r#"{"msg": "hi"}"#);
    assert!(matches!(outcome, Outcome::Success(_)));
}

#[test]
fn chain_passes_payload_through() {
    let r = reg(&["a", "b"]);
    let wf = Workflow::builder(&r).edge("a", "b").build().unwrap();
    let v = success(run(&mut supervisor(r), &wf, "42"));
    assert_eq!(v.get("b").unwrap().as_u64(), Some(42));
}

fn diamond() -> (AgentRegistry, Workflow) {
    let r = reg(&["intake", "left", "right", "merge"]);
    let wf = Workflow::builder(&r)
        .edge("intake", "left")
        .edge("intake", "right")
        .edge("left", "merge")
        .edge("right", "merge")
        .build()
        .unwrap();
    (r, wf)
}

#[test]
fn fan_out_fan_in_produces_named_map() {
    let (r, wf) = diamond();
    let v = success(run(&mut supervisor(r), &wf, "\"start\""));
    let merge = v.get("merge").unwrap();
    assert!(matches!(merge, Json::Object(_)), "fan-in result should be a named map");
    assert_eq!(merge.get("left").unwrap().as_str(), Some("start"));
    assert_eq!(merge.get("right").unwrap().as_str(), Some("start"));
}

#[test]
fn supervisor_event_stream_receives_workflow_started() {
    let mut sup = supervisor(reg(&["x"]));
    run(&mut sup, &entry_only("x"), "null");
    let events = sup.take_events();
    assert!(matches!(events[0], SupervisorEvent::WorkflowStarted { .. }));
}

#[test]
fn node_metadata_is_forwarded_in_envelope() {
    let mut r = AgentRegistry::new();
    let mut worker = mk_node("worker");
    worker.metadata.insert("instruction".to_string(), "do-the-thing".to_string());
    worker.metadata.insert("node".to_string(), "someone else".to_string());
    r.register(worker);
    let mut seen: Vec<(String, String, String)> = vec![];
    let mut agent = |_: &AgentNode, m: &Envelope| {
        let label = |k: &str| m.metadata.get(k).unwrap().clone();
        seen.push((label("instruction"), label("node"), label("trace_id")));
        echo(m)
    };
    let outcome =
        run_with(&mut supervisor(r), &entry_only("worker"), "null", &mut agent, &no_conditions);
    assert!(matches!(outcome, Outcome::Success(_)));
    assert_eq!(
        seen,
        vec![("do-the-thing".to_string(), "worker".to_string(), WID_TEXT.to_string())]
    );
}

#[test]
fn fan_in_delivers_named_map() {
    let (r, wf) = diamond();
    let v = success(run(&mut supervisor(r), &wf, "\"start\""));
    let merge = v.get("merge").unwrap();
    assert!(merge.get("left").is_some(), "missing 'left' key");
    assert!(merge.get("right").is_some(), "missing 'right' key");
}

#[test]
fn multi_terminal_returns_map_of_results() {
    let r = reg(&["root", "a", "b"]);
    let wf = Workflow::builder(&r).edge("root", "a").edge("root", "b").build().unwrap();
    let v = success(run(&mut supervisor(r), &wf, "\"payload\""));
    assert!(v.get("a").is_some(), "terminal 'a' missing from result map");
    assert!(v.get("b").is_some(), "terminal 'b' missing from result map");
    assert!(v.get("root").is_none());
}

#[test]
fn single_terminal_result_wrapped_in_map() {
    let r = reg(&["a", "b"]);
    let wf = Workflow::builder(&r).edge("a", "b").build().unwrap();
    let v = success(run(&mut supervisor(r), &wf, "42"));
    assert_eq!(v, json(r#"{"b":42}"#), "single terminal should appear under key 'b'");
}

#[test]
fn failure_policy_fallback() {
    let mut r = AgentRegistry::new();
    let mut bad = mk_node("bad");
    bad.failure.fallback = Some("good".to_string());
    r.register(bad);
    r.register(mk_node("good"));
    let mut agent = |n: &AgentNode, m: &Envelope| {
        if n.name == "bad" {
            answer(m, EnvelopeKind::Error, "\"boom\"")
        } else {
            echo(m)
        }
    };
    let mut sup = supervisor(r);
    let outcome = run_with(&mut sup, &entry_only("bad"), "\"data\"", &mut agent, &no_conditions);
    assert!(matches!(outcome, Outcome::Success(_)), "expected fallback, got {outcome:?}");
}

#[test]
fn fallback_that_fails_fails_the_run() {
    let mut r = AgentRegistry::new();
    let mut bad = mk_node("bad");
    bad.failure.fallback = Some("worse".to_string());
    r.register(bad);
    r.register(mk_node("worse"));
    let mut agent = |n: &AgentNode, m: &Envelope| {
        answer(m, EnvelopeKind::Error, if n.name == "bad" { "\"boom\"" } else { r#"{"why":"bang"}"# })
    };
    let mut sup = supervisor(r);
    let outcome = run_with(&mut sup, &entry_only("bad"), "\"data\"", &mut agent, &no_conditions);
    assert_eq!(
        outcome,
        Outcome::Failed { node: "bad".to_string(), error: r#"{"why":"bang"}"#.to_string() }
    );
    assert_eq!(status(&sup), ExecutionStatus::Failed);
    assert_ne!(record(&sup, "bad").status, NodeStatus::Done);
    assert_eq!(record(&sup, "bad").output, None);
    let (kept, _) = sup.store().load_execution(WID_TEXT).unwrap();
    assert_eq!(kept.error.as_deref(), Some(r#"{"why":"bang"}"#));
    let completed = sup
        .take_events()
        .iter()
        .filter(|e| matches!(e, SupervisorEvent::TaskCompleted { .. }))
        .count();
    assert_eq!(completed, 0);
}

#[test]
fn retries_come_before_the_failure() {
    let mut r = AgentRegistry::new();
    let mut bad = mk_node("bad");
    bad.failure.retries = 2;
    bad.failure.restart_on_failure = true;
    r.register(bad);
    let mut calls = 0;
    let mut agent = |_: &AgentNode, m: &Envelope| {
        calls += 1;
        answer(m, EnvelopeKind::Error, "\"boom\"")
    };
    let mut sup = supervisor(r);
    let outcome = run_with(&mut sup, &entry_only("bad"), "null", &mut agent, &no_conditions);
    assert_eq!(
        outcome,
        Outcome::Failed { node: "bad".to_string(), error: "\"boom\"".to_string() }
    );
    assert_eq!(calls, 3);
    assert_eq!(status(&sup), ExecutionStatus::Failed);
    let events = sup.take_events();
    let failed = events.iter().filter(|e| matches!(e, SupervisorEvent::TaskFailed { .. })).count();
    let restarted =
        events.iter().filter(|e| matches!(e, SupervisorEvent::AgentRestarted { .. })).count();
    assert_eq!((failed, restarted), (3, 2));
}

#[test]
fn timeout_of_an_agent_is_the_outcome() {
    let mut agent =
        |n: &AgentNode, _: &Envelope| Err(AetherError::AgentTimeout { node: n.name.clone() });
    let mut sup = supervisor(reg(&["slow"]));
    let outcome = run_with(&mut sup, &entry_only("slow"), "null", &mut agent, &no_conditions);
    assert_eq!(outcome, Outcome::Timeout { node: "slow".to_string() });
    let (record, _) = sup.store().load_execution(WID_TEXT).unwrap();
    assert_eq!(record.error.as_deref(), Some("agent 'slow' timed out"));
}

#[test]
fn node_that_is_not_registered_fails_the_run() {
    let mut sup = supervisor(reg(&[]));
    let outcome = run(&mut sup, &entry_only("ghost"), "null");
    assert_eq!(
        outcome,
        Outcome::Failed {
            node: String::new(),
            error: "registry error: node 'ghost' not found at dispatch time".to_string(),
        }
    );
}

#[test]
fn execution_runs_once_under_its_id() {
    let mut sup = supervisor(reg(&["a"]));
    let wf = entry_only("a");
    assert!(matches!(run(&mut sup, &wf, "null"), Outcome::Success(_)));
    match run(&mut sup, &wf, "null") {
        Outcome::Failed { error, .. } => assert!(error.contains("UNIQUE constraint failed")),
        other => panic!("expected a refusal, got {other:?}"),
    }
}

#[test]
fn labels_of_answers_change_nothing() {
    let mut plain = supervisor(reg(&["a"]));
    let mut lying = supervisor(reg(&["a"]));
    let mut agent = |_: &AgentNode, m: &Envelope| {
        let mut metadata = TextMap::new();
        metadata.insert("workflow_id".to_string(), "elsewhere".to_string());
        Ok(Envelope { id: 77, kind: EnvelopeKind::Result, metadata, ..m.clone() })
    };
    let wf = entry_only("a");
    let told = run_with(&mut lying, &wf, "3", &mut agent, &no_conditions);
    assert_eq!(run(&mut plain, &wf, "3"), told);
    assert_eq!(plain.store(), lying.store());
}

#[test]
fn node_waits_for_the_last_of_its_upstream_nodes() {
    let (r, wf) = diamond();
    let mut order: Vec<String> = vec![];
    let mut agent = |n: &AgentNode, m: &Envelope| {
        order.push(n.name.clone());
        echo(m)
    };
    run_with(&mut supervisor(r), &wf, "1", &mut agent, &no_conditions);
    assert_eq!(order.iter().filter(|n| *n == "merge").count(), 1);
    assert_eq!(order.last().map(String::as_str), Some("merge"));
}

// Decisions.

fn gate_then_after() -> (AgentRegistry, Workflow) {
    let r = reg(&["gate", "after"]);
    let wf = Workflow::builder(&r).edge("gate", "after").build().unwrap();
    (r, wf)
}

#[test]
fn suspended_node_parks_run_and_does_not_fire_downstream() {
    let (r, wf) = gate_then_after();
    let mut sup = supervisor(r);
    let mut agent = |_: &AgentNode, m: &Envelope| answer(m, EnvelopeKind::Suspended, GATE);
    let outcome = run_with(&mut sup, &wf, r#"{"m": 1}"#, &mut agent, &no_conditions);
    assert_eq!(outcome, Outcome::Suspended { workflow_id: WID });
    assert_eq!(status(&sup), ExecutionStatus::Suspended);
    assert_eq!(record(&sup, "gate").status, NodeStatus::Suspended);
    assert_eq!(record(&sup, "after").status, NodeStatus::Pending);
}

fn parked_with(payload: &'static str, secs: Option<u64>) -> Supervisor {
    let mut r = AgentRegistry::new();
    let mut gate = mk_node("gate");
    gate.gate_deadline_secs = secs;
    r.register(gate);
    let wf = Workflow::builder(&r).entry("gate").build().unwrap();
    let mut sup = supervisor(r);
    let mut agent = |_: &AgentNode, m: &Envelope| answer(m, EnvelopeKind::Suspended, payload);
    run_with(&mut sup, &wf, r#"{"m": 1}"#, &mut agent, &no_conditions);
    sup
}

#[test]
fn park_stamps_effective_gate_deadline_agent_overrides_node() {
    let sup = parked_with(
        r#"{ "session_id": "s1", "approval_id": "a1", "kind": "phase_gate",
             "prompt": "ok?", "gate_deadline": "2099-01-01T00:00:00+00:00" }"#,
        Some(30),
    );
    assert_eq!(
        record(&sup, "gate").gate_deadline.as_deref(),
        Some("2099-01-01T00:00:00+00:00")
    );
}

#[test]
fn park_stamps_agent_deadline_normalized_to_utc() {
    let sup = parked_with(
        r#"{ "session_id": "s1", "approval_id": "a1", "kind": "phase_gate",
             "prompt": "ok?", "gate_deadline": "2026-07-21T09:00:00+09:00" }"#,
        Some(30),
    );
    let gate = record(&sup, "gate");
    let stamped = gate.gate_deadline.as_deref().expect("deadline stamped");
    assert_eq!(stamped, "2026-07-21T00:00:00+00:00");
    let parsed = chrono::DateTime::parse_from_rfc3339(stamped).unwrap();
    assert_eq!(parsed.offset().local_minus_utc(), 0, "stamped offset must be UTC");
}

#[test]
fn park_stamps_node_default_when_agent_omits_deadline() {
    let sup = parked_with(GATE, Some(3600));
    let gate = record(&sup, "gate");
    let deadline = gate.gate_deadline.as_deref().expect("node default stamps a deadline");
    assert!(chrono::DateTime::parse_from_rfc3339(deadline).is_ok());
    assert_eq!(deadline, "2026-06-01T01:00:00+00:00");
}

#[test]
fn malformed_question_fails_the_run() {
    let sup = parked_with(r#"{ "session_id": "s1" }"#, None);
    let (record, _) = sup.store().load_execution(WID_TEXT).unwrap();
    assert_eq!(record.status, ExecutionStatus::Failed);
    assert!(record.error.unwrap().contains("malformed Suspended payload from 'gate'"));
}

fn resume(
    sup: &mut Supervisor,
    wf: &Workflow,
    node: &str,
    reply: impl Fn(&Envelope) -> Reply,
) -> Outcome {
    match sup.begin_resume(WID, node, ApprovalDecision::Approved, NOW) {
        Err(o) => o,
        Ok((_, request)) => {
            let blank = Envelope::invoke(5, request.to_json(), TextMap::new());
            let said = Answers { tests: vec![], capabilities: vec![] };
            match sup.on_resumed(WID, wf, node, reply(&blank), &said, NOW) {
                Resumed::Over(o) => o,
                Resumed::Driving(d) => {
                    drive(sup, wf, d, &mut |_, m| echo(m), &no_conditions)
                }
            }
        }
    }
}

#[test]
fn resume_completes_parked_run() {
    let mut sup = parked_with(GATE, None);
    let wf = entry_only("gate");
    let done = resume(&mut sup, &wf, "gate", |m| {
        answer(m, EnvelopeKind::Result, r#"{"approved": true}"#)
    });
    assert_eq!(success(done).get("gate").unwrap().get("approved"), Some(&Json::Bool(true)));
}

#[test]
fn decision_runs_the_nodes_behind_the_gate() {
    let (r, wf) = gate_then_after();
    let mut sup = supervisor(r);
    let mut agent = |_: &AgentNode, m: &Envelope| answer(m, EnvelopeKind::Suspended, GATE);
    run_with(&mut sup, &wf, "null", &mut agent, &no_conditions);
    let done = resume(&mut sup, &wf, "gate", |m| answer(m, EnvelopeKind::Result, "\"go\""));
    assert_eq!(success(done), json(r#"{"after":"go"}"#));
}

#[test]
fn decision_is_taken_once() {
    let mut sup = parked_with(GATE, None);
    let wf = entry_only("gate");
    assert!(matches!(resume(&mut sup, &wf, "gate", echo), Outcome::Success(_)));
    assert_eq!(
        resume(&mut sup, &wf, "gate", echo),
        Outcome::Failed { node: "gate".to_string(), error: "node is not suspended".to_string() }
    );
    assert_eq!(
        resume(&mut sup, &wf, "ghost", echo),
        Outcome::Failed { node: "ghost".to_string(), error: "unknown node".to_string() }
    );
}

#[test]
fn decision_goes_to_the_session_that_asked() {
    let mut sup = parked_with(GATE, None);
    let decision = ApprovalDecision::Rejected { reason: None };
    let (node, request) = sup.begin_resume(WID, "gate", decision, NOW).unwrap();
    assert_eq!(node.name, "gate");
    assert_eq!((request.session_id.as_str(), request.approval_id.as_str()), ("s1", "a1"));
}

#[test]
fn agent_may_ask_again() {
    let mut sup = parked_with(GATE, None);
    let wf = entry_only("gate");
    let again = resume(&mut sup, &wf, "gate", |m| {
        answer(
            m,
            EnvelopeKind::Suspended,
            r#"{ "session_id": "s2", "approval_id": "a2", "kind": "k", "prompt": "sure?" }"#,
        )
    });
    assert_eq!(again, Outcome::Suspended { workflow_id: WID });
    assert_eq!(record(&sup, "gate").session_id.as_deref(), Some("s2"));
    assert!(sup.store().executions[0].claimed_by.is_none());
}

#[test]
fn failed_decision_fails_the_execution() {
    let mut sup = parked_with(GATE, None);
    let wf = entry_only("gate");
    let failed =
        resume(&mut sup, &wf, "gate", |m| answer(m, EnvelopeKind::Error, "\"no\""));
    assert_eq!(
        failed,
        Outcome::Failed { node: "gate".to_string(), error: "\"no\"".to_string() }
    );
    assert_eq!(status(&sup), ExecutionStatus::Failed);
}

// Recovery.

fn crashed_after_a() -> (Supervisor, Workflow) {
    let r = reg(&["a", "b"]);
    let wf = Workflow::builder(&r).edge("a", "b").build().unwrap();
    let mut store = ExecutionStore::new();
    let names = vec!["a".to_string(), "b".to_string()];
    let t = NOW.to_text();
    store.create_execution(WID_TEXT, "{}", "{}", &names, &t).unwrap();
    store.complete_node(WID_TEXT, "a", r#"{"v":1}"#, &t);
    (Supervisor::with_store(r, store, "driver".to_string()), wf)
}

#[test]
fn recover_resumes_without_rerunning_done_nodes() {
    let (mut sup, wf) = crashed_after_a();
    let mut called: Vec<String> = vec![];
    let mut agent = |n: &AgentNode, m: &Envelope| {
        called.push(n.name.clone());
        echo(m)
    };
    let d = sup.begin_recover(WID, &wf, NOW).unwrap();
    let outcome = drive(&mut sup, &wf, d, &mut agent, &no_conditions);
    assert_eq!(success(outcome), json(r#"{"b":{"v":1}}"#));
    assert_eq!(called, vec!["b".to_string()], "done node 'a' must not be re-run");
    assert_eq!(status(&sup), ExecutionStatus::Succeeded);
    assert_eq!(record(&sup, "b").status, NodeStatus::Done);
}

#[test]
fn recover_refused_when_execution_is_claimed_by_a_live_driver() {
    let (sup, wf) = crashed_after_a();
    let mut store = sup.into_store();
    let far = later(600).to_text();
    assert!(store.claim_execution(WID_TEXT, "foreign", &NOW.to_text(), &far));
    let mut sup = Supervisor::with_store(reg(&["a", "b"]), store, "driver".to_string());
    match sup.begin_recover(WID, &wf, NOW) {
        Err(Outcome::Failed { error, .. }) => assert!(error.contains("already being driven")),
        other => panic!("expected refusal, got {other:?}"),
    }
    assert!(sup.begin_recover(WID, &wf, later(601)).is_ok());
}

#[test]
fn recovery_leaves_parked_nodes_parked() {
    let mut sup = parked_with(GATE, None);
    let wf = entry_only("gate");
    let d = sup.begin_recover(WID, &wf, NOW).unwrap();
    assert!(d.ready.is_empty());
    let outcome = drive(&mut sup, &wf, d, &mut |_, m| echo(m), &no_conditions);
    assert_eq!(outcome, Outcome::Suspended { workflow_id: WID });
}

#[test]
fn successful_run_releases_its_claim() {
    let mut sup = supervisor(reg(&["only"]));
    let outcome = run(&mut sup, &entry_only("only"), r#"{"m":1}"#);
    assert!(matches!(outcome, Outcome::Success(_)));
    let mut store = sup.into_store();
    let exp = later(300).to_text();
    assert!(store.claim_execution(WID_TEXT, "fresh", &NOW.to_text(), &exp));
}

#[test]
fn active_ids_are_those_of_open_executions() {
    let (sup, _) = crashed_after_a();
    assert_eq!(sup.active_execution_ids(), vec![WID]);
    let mut done = supervisor(reg(&["only"]));
    run(&mut done, &entry_only("only"), "1");
    assert!(done.active_execution_ids().is_empty());
}

// Runs over HTTP agents that answer `{"output": <input>}`.

fn http_agent(prefix: &'static str) -> impl Fn(&Envelope) -> Reply {
    move |m: &Envelope| {
        let sent = flatten(m);
        let input = sent.payload.get("input").unwrap().as_str().unwrap();
        let mut out = TextMap::new();
        out.insert("output".to_string(), Json::string(format!("{prefix}{input}")));
        Ok(Envelope { kind: EnvelopeKind::Result, payload: Json::Object(out), ..m.clone() })
    }
}

#[test]
fn single_echo_node() {
    let mut agent = |_: &AgentNode, m: &Envelope| http_agent("")(m);
    let mut sup = supervisor(reg(&["echo"]));
    let v = success(run_with(
        &mut sup,
        &entry_only("echo"),
        r#"{"test": true}"#,
        &mut agent,
        &no_conditions,
    ));
    assert_eq!(v.get("echo").unwrap().get("output").unwrap().as_str(), Some("true"));
}

#[test]
fn chain_of_two_echo_nodes() {
    let r = reg(&["first", "second"]);
    let wf = Workflow::builder(&r).edge("first", "second").build().unwrap();
    let mut agent = |_: &AgentNode, m: &Envelope| http_agent("")(m);
    let v = success(run_with(&mut supervisor(r), &wf, "42", &mut agent, &no_conditions));
    assert_eq!(v.get("second").unwrap().get("output").unwrap().as_str(), Some("42"));
}

#[test]
fn fan_out_fan_in_with_http_servers() {
    let (r, wf) = diamond();
    let mut agent = |n: &AgentNode, m: &Envelope| match n.name.as_str() {
        "left" => http_agent("L:")(m),
        "right" => http_agent("R:")(m),
        _ => http_agent("")(m),
    };
    let v = success(run_with(&mut supervisor(r), &wf, "\"start\"", &mut agent, &no_conditions));
    assert_eq!(
        v.get("merge").unwrap().get("output").unwrap().as_str(),
        Some("L:start\n\n---\n\nR:start")
    );
}

#[test]
fn conditional_routing_fires_matching_edge() {
    let r = reg(&["router", "path-a", "path-b"]);
    let wf = Workflow::builder(&r)
        .conditional("router", "path-a", 0)
        .conditional("router", "path-b", 1)
        .build()
        .unwrap();
    let routes = |env: &Envelope| {
        let route = env.payload.get("route").and_then(|v| v.as_str()).unwrap_or("");
        Answers { tests: vec![route == "a", route == "b"], capabilities: vec![] }
    };
    let mut sup = supervisor(r);
    let outcome =
        run_with(&mut sup, &wf, r#"{"route": "a"}"#, &mut |_, m| echo(m), &routes);
    let v = success(outcome);
    assert!(v.get("path-a").is_some());
    assert!(v.get("path-b").is_none());
    assert_eq!(record(&sup, "path-b").status, NodeStatus::Pending);
}

#[test]
fn supervisor_events_are_emitted() {
    let mut sup = supervisor(reg(&["node"]));
    run(&mut sup, &entry_only("node"), "null");
    let events = sup.take_events();
    assert!(events.iter().any(|e| matches!(e, SupervisorEvent::WorkflowStarted { .. })));
    assert!(events.iter().any(|e| matches!(e, SupervisorEvent::WorkflowFinished { .. })));
    assert!(events.iter().any(|e| matches!(e, SupervisorEvent::TaskDispatched { .. })));
    assert!(sup.take_events().is_empty());
}

#[test]
fn events_are_told_as_json() {
    let mut sup = supervisor(reg(&["n"]));
    run(&mut sup, &entry_only("n"), "7");
    let told: Vec<String> = sup.take_events().iter().map(|e| e.to_json().to_text()).collect();
    assert_eq!(
        told[0],
        format!(r#"{{"WorkflowStarted":{{"entries":["n"],"workflow_id":"{WID_TEXT}"}}}}"#)
    );
    assert_eq!(
        told[2],
        format!(
            r#"{{"TaskCompleted":{{"elapsed":1,"envelope_id":"00000000-0000-0000-0000-000000000065","node":"n","workflow_id":"{WID_TEXT}"}}}}"#
        )
    );
    assert_eq!(
        told[3],
        format!(
            r#"{{"WorkflowFinished":{{"result":{{"Success":{{"n":7}}}},"workflow_id":"{WID_TEXT}"}}}}"#
        )
    );
}

// Planning.

fn store_with(entries: &[(&str, &str, &str, &[&str], RegistryStatus)]) -> RegistryStore {
    let mut store = RegistryStore::new();
    for (iid, name, url, caps, status) in entries {
        store.register(RegistrationEntry {
            instance_id: iid.to_string(),
            name: name.to_string(),
            http_url: url.to_string(),
            capabilities: caps.iter().map(|s| s.to_string()).collect(),
            metadata: TextMap::new(),
            registered_at: "2026-06-23T00:00:00Z".to_string(),
            last_health_check: None,
            status: RegistryStatus::Unknown,
        });
        store.update_health(iid, *status, "2026-06-23T00:01:00Z");
    }
    store
}

#[test]
fn registration_to_node_sets_instruction_metadata() {
    let node =
        registration_to_node("n1", "http://127.0.0.1:8080", &Some("go".to_string()), None);
    assert_eq!(node.name, "n1");
    assert_eq!(node.metadata.get("instruction").map(String::as_str), Some("go"));
}

#[test]
fn registration_to_node_without_instruction_has_empty_metadata() {
    let node = registration_to_node("n1", "http://127.0.0.1:8080", &None, None);
    assert!(node.metadata.is_empty());
    assert_eq!(node.timeout, Duration::from_secs(300));
    assert_eq!(node.shutdown_grace, Duration::from_secs(5));
    assert_eq!(
        node.factory,
        AgentEndpoint::Http(HttpAgentFactory {
            node_name: "n1".to_string(),
            http_url: "http://127.0.0.1:8080".to_string(),
        })
    );
}

#[test]
fn registration_to_node_carries_gate_deadline_secs() {
    let node = registration_to_node("n1", "http://127.0.0.1:8080", &None, Some(120));
    assert_eq!(node.gate_deadline_secs, Some(120));
}

#[test]
fn resolve_capability_picks_healthy() {
    let store = store_with(&[
        ("i1", "researcher", "http://127.0.0.1:1", &["research"], RegistryStatus::Unhealthy),
        ("i2", "researcher2", "http://127.0.0.1:2", &["research"], RegistryStatus::Healthy),
    ]);
    assert_eq!(resolve_capability(&store, "research").unwrap().instance_id, "i2");
}

#[test]
fn resolve_capability_errors_when_none_healthy() {
    let store = store_with(&[(
        "i1",
        "researcher",
        "http://127.0.0.1:1",
        &["research"],
        RegistryStatus::Unhealthy,
    )]);
    assert!(matches!(
        resolve_capability(&store, "research"),
        Err(AetherError::RegistryError { .. })
    ));
}

#[test]
fn resolve_agent_pins_by_name() {
    let store = store_with(&[
        ("i1", "writer", "http://127.0.0.1:1", &["write"], RegistryStatus::Healthy),
        ("i2", "other", "http://127.0.0.1:2", &["write"], RegistryStatus::Healthy),
    ]);
    let all = store.list_all();
    assert_eq!(find_named(&all, "writer").unwrap().instance_id, "i1");
}

fn two_step_dag() -> &'static str {
    r#"{ "nodes": [
        { "id": "n1", "capability": "research", "depends_on": [] },
        { "id": "n2", "capability": "synthesize", "depends_on": ["n1"] }
    ] }"#
}

#[test]
fn build_workflow_maps_dependencies_to_edges() {
    let store = store_with(&[
        ("i1", "researcher", "http://127.0.0.1:1", &["research"], RegistryStatus::Healthy),
        ("i2", "writer", "http://127.0.0.1:2", &["synthesize"], RegistryStatus::Healthy),
    ]);
    let dag = DagSpec::parse(&json(two_step_dag())).unwrap();
    let (registry, workflow) = build_registry_and_workflow(&store, &dag).unwrap();
    assert!(registry.get("n1").is_some());
    assert!(registry.get("n2").is_some());
    assert!(workflow.entries.contains(&"n1".to_string()));
    assert_eq!(workflow.incoming("n2").len(), 1);
    assert_eq!(workflow.outgoing("n1")[0].to, "n2");
}

#[test]
fn build_workflow_errors_on_missing_capability() {
    let store = store_with(&[(
        "i1",
        "researcher",
        "http://127.0.0.1:1",
        &["research"],
        RegistryStatus::Healthy,
    )]);
    let dag = DagSpec::parse(&json(
        r#"{ "nodes": [ { "id": "n1", "capability": "nonexistent", "depends_on": [] } ] }"#,
    ))
    .unwrap();
    assert!(matches!(
        build_registry_and_workflow(&store, &dag),
        Err(AetherError::RegistryError { .. })
    ));
}

#[test]
fn build_workflow_refuses_a_cyclic_plan() {
    let store = store_with(&[(
        "i1",
        "worker",
        "http://127.0.0.1:1",
        &["work"],
        RegistryStatus::Healthy,
    )]);
    let dag = DagSpec::parse(&json(
        r#"{ "nodes": [
            { "id": "a", "capability": "work", "depends_on": ["b"] },
            { "id": "b", "capability": "work", "depends_on": ["a"] }
        ] }"#,
    ))
    .unwrap();
    assert!(matches!(
        build_registry_and_workflow(&store, &dag),
        Err(AetherError::WorkflowError { .. })
    ));
}

fn plan_with_deadline(secs: &str) -> DagSpec {
    DagSpec::parse(&json(&format!(
        r#"{{ "nodes": [{{ "id": "a", "capability": "work", "gate_deadline_secs": {secs} }}] }}"#
    )))
    .unwrap()
}

#[test]
fn plan_may_name_a_deadline_beyond_all_dates() {
    let store = store_with(&[(
        "i1",
        "worker",
        "http://127.0.0.1:1",
        &["work"],
        RegistryStatus::Healthy,
    )]);
    for secs in [3600, 9_000_000_000_000, 9_223_372_036_854_775_808] {
        let (registry, wf) =
            build_registry_and_workflow(&store, &plan_with_deadline(&secs.to_string())).unwrap();
        assert_eq!(registry.get("a").unwrap().gate_deadline_secs, Some(secs));
        let v = success(run(&mut supervisor(registry), &wf, "1"));
        assert_eq!(v, json(r#"{"a":1}"#));
    }
}

#[test]
fn gate_whose_deadline_is_no_date_fails_the_run() {
    let words = "workflow error: gate deadline of 'gate' is not a date";
    for secs in [9_000_000_000_000, 9_223_372_036_854_775_808] {
        let sup = parked_with(GATE, Some(secs));
        let (row, rows) = sup.store().load_execution(WID_TEXT).unwrap();
        assert_eq!(row.status, ExecutionStatus::Failed);
        assert_eq!(row.error.as_deref(), Some(words));
        assert_eq!(rows[0].status, NodeStatus::Running);
    }
    let named = parked_with(
        r#"{ "session_id": "s1", "approval_id": "a1", "kind": "k", "prompt": "ok?",
             "gate_deadline": "2099-01-01T00:00:00+00:00" }"#,
        Some(9_000_000_000_000),
    );
    assert_eq!(status(&named), ExecutionStatus::Suspended);
}

#[test]
fn question_after_a_decision_needs_a_date_too() {
    let mut sup = parked_with(
        r#"{ "session_id": "s1", "approval_id": "a1", "kind": "k", "prompt": "ok?",
             "gate_deadline": "2099-01-01T00:00:00+00:00" }"#,
        Some(9_000_000_000_000),
    );
    let again = resume(&mut sup, &entry_only("gate"), "gate", |m| {
        answer(m, EnvelopeKind::Suspended, GATE)
    });
    assert_eq!(
        again,
        Outcome::Failed {
            node: "gate".to_string(),
            error: "workflow error: gate deadline of 'gate' is not a date".to_string()
        }
    );
    assert_eq!(status(&sup), ExecutionStatus::Failed);
    assert!(sup.store().executions[0].claimed_by.is_none());
}

// Whole runs of plans.

/// `a` and `b` begin, `c` waits for both, `d` for `b`; `c`, `d` and `e` are the ends.
fn plan_with_three_ends() -> (AgentRegistry, Workflow) {
    let store = store_with(&[(
        "i1",
        "worker",
        "http://127.0.0.1:1",
        &["work"],
        RegistryStatus::Healthy,
    )]);
    let dag = DagSpec::parse(&json(
        r#"{ "nodes": [
            { "id": "a", "capability": "work" },
            { "id": "b", "capability": "work" },
            { "id": "c", "capability": "work", "depends_on": ["a", "b"] },
            { "id": "d", "capability": "work", "depends_on": ["b"] },
            { "id": "e", "capability": "work" }
        ] }"#,
    ))
    .unwrap();
    assert_eq!(dag.terminal_ids(), vec!["c", "d", "e"]);
    build_registry_and_workflow(&store, &dag).unwrap()
}

#[test]
fn planned_run_gives_every_result() {
    let (r, wf) = plan_with_three_ends();
    let mut sup = supervisor(r);
    let mut agent = |n: &AgentNode, m: &Envelope| {
        answer(m, EnvelopeKind::Result, &format!("\"from {}\"", n.name))
    };
    let v = success(run_with(&mut sup, &wf, "null", &mut agent, &no_conditions));
    assert_eq!(v, json(r#"{"c":"from c","d":"from d","e":"from e"}"#));
    assert!(nodes(&sup).iter().all(|n| n.status == NodeStatus::Done));
}

#[test]
fn parked_run_gives_every_result_after_its_decisions() {
    let (r, wf) = plan_with_three_ends();
    let mut sup = supervisor(r);
    let mut agent = |n: &AgentNode, m: &Envelope| {
        if n.name == "a" || n.name == "d" {
            answer(m, EnvelopeKind::Suspended, GATE)
        } else {
            answer(m, EnvelopeKind::Result, &format!("\"from {}\"", n.name))
        }
    };
    let parked = run_with(&mut sup, &wf, "null", &mut agent, &no_conditions);
    assert_eq!(parked, Outcome::Suspended { workflow_id: WID });
    assert_eq!(record(&sup, "c").status, NodeStatus::Pending);
    let go = |m: &Envelope| answer(m, EnvelopeKind::Result, "\"go\"");
    assert_eq!(resume(&mut sup, &wf, "d", go), Outcome::Suspended { workflow_id: WID });
    let v = success(resume(&mut sup, &wf, "a", go));
    assert_eq!(v, json(r#"{"c":{"a":"go","b":"from b"},"d":"go","e":"from e"}"#));
}

#[test]
fn recovered_run_gives_every_result() {
    let (r, wf) = plan_with_three_ends();
    let mut sup = supervisor(r);
    let spec = serialize_workflow_spec(&wf);
    let mut d = sup.start(WID, &wf, &json("null"), &spec, NOW).unwrap();
    let said = Answers { tests: vec![], capabilities: vec![] };
    for (name, payload) in sup.next_level(&mut d, NOW).unwrap() {
        let (_, msg) = sup.dispatch(WID, &name, payload, 7, NOW).unwrap();
        if name == "b" {
            let reply = answer(&msg, EnvelopeKind::Result, "\"early\"");
            assert_eq!(sup.on_task(&mut d, &wf, &name, reply, 7, 1, &said, NOW), None);
        }
    }
    let store = sup.into_store();
    let (r, _) = plan_with_three_ends();
    let mut other = Supervisor::with_store(r, store, "other".to_string());
    let d = other.begin_recover(WID, &wf, later(601)).unwrap();
    let again: Vec<&str> = d.ready.iter().map(|t| t.0.as_str()).collect();
    assert_eq!(again.len(), 3);
    assert!(["a", "d", "e"].iter().all(|x| again.contains(x)));
    let mut agent = |n: &AgentNode, m: &Envelope| {
        answer(m, EnvelopeKind::Result, &format!("\"from {}\"", n.name))
    };
    let v = success(drive(&mut other, &wf, d, &mut agent, &no_conditions));
    assert_eq!(v, json(r#"{"c":"from c","d":"from d","e":"from e"}"#));
    assert_eq!(record(&other, "b").output.as_deref(), Some("\"early\""));
}

#[test]
fn expired_gate_leaves_out_what_lay_behind_it() {
    let (r, wf) = plan_with_three_ends();
    let mut sup = supervisor(r);
    let mut agent = |n: &AgentNode, m: &Envelope| {
        if n.name == "a" {
            answer(
                m,
                EnvelopeKind::Suspended,
                r#"{ "session_id": "s1", "approval_id": "a1", "kind": "k", "prompt": "ok?",
                     "gate_deadline": "2026-06-01T00:00:01+00:00" }"#,
            )
        } else {
            echo(m)
        }
    };
    let parked = run_with(&mut sup, &wf, "1", &mut agent, &no_conditions);
    assert_eq!(parked, Outcome::Suspended { workflow_id: WID });
    let mut store = sup.into_store();
    assert_eq!(store.expire_gates(&later(2).to_text()).len(), 1);
    let (r, _) = plan_with_three_ends();
    let mut sup = Supervisor::with_store(r, store, "driver".to_string());
    let d = sup.begin_recover(WID, &wf, later(3)).unwrap();
    let v = success(drive(&mut sup, &wf, d, &mut |_, m| echo(m), &no_conditions));
    assert_eq!(v, json(r#"{"d":1,"e":1}"#));
}

/// Plan a goal and run the plan, all agents being played by closures.
fn submit(
    orch: Orchestrator,
    goal: &str,
    plan: &str,
    agent: &mut dyn FnMut(&AgentNode, &Envelope) -> Reply,
) -> (Outcome, ExecutionStore) {
    let goal = json(goal);
    let (planner, request) = match orch.plan_request(&goal, 1) {
        Ok(found) => found,
        Err(o) => return (o, orch.execution_store),
    };
    assert!(planner.capabilities.contains(&"plan".to_string()));
    let mut out = TextMap::new();
    out.insert("output".to_string(), Json::text(plan));
    let reply =
        Envelope { kind: EnvelopeKind::Result, payload: Json::Object(out), ..request.clone() };
    let planned = match orch.on_plan(Ok(reply)) {
        Ok(p) => p,
        Err(o) => return (o, orch.execution_store),
    };
    let mut sup = Supervisor::with_store(
        planned.registry,
        orch.execution_store,
        "driver".to_string(),
    );
    let outcome = match sup.start(WID, &planned.workflow, &goal, &planned.spec_text, NOW) {
        Ok(d) => drive(&mut sup, &planned.workflow, d, agent, &no_conditions),
        Err(o) => o,
    };
    (outcome, sup.into_store())
}

#[test]
fn submit_fails_when_no_planner_registered() {
    let orch = Orchestrator::new(RegistryStore::new(), ExecutionStore::new());
    let (outcome, _) = submit(orch, r#"{"goal": "x"}"#, "{}", &mut |_, m| echo(m));
    assert!(matches!(outcome, Outcome::Failed { .. }));
}

#[test]
fn submit_fails_without_planner() {
    let orch = Orchestrator::new(RegistryStore::new(), ExecutionStore::new());
    let (outcome, _) = submit(orch, "null", "{}", &mut |_, m| echo(m));
    assert!(matches!(outcome, Outcome::Failed { .. }));
}

fn planner_and_workers() -> RegistryStore {
    store_with(&[
        ("p1", "planner", "http://127.0.0.1:1", &["plan"], RegistryStatus::Healthy),
        ("r1", "researcher", "http://127.0.0.1:2", &["research"], RegistryStatus::Healthy),
        ("s1", "writer", "http://127.0.0.1:3", &["synthesize"], RegistryStatus::Healthy),
        ("w1", "worker", "http://127.0.0.1:4", &["work"], RegistryStatus::Healthy),
    ])
}

#[test]
fn end_to_end_plan_and_execute() {
    let orch = Orchestrator::new(planner_and_workers(), ExecutionStore::new());
    let mut agent = |_: &AgentNode, m: &Envelope| http_agent("")(m);
    let (outcome, _) = submit(orch, r#"{"goal": "summarize X"}"#, two_step_dag(), &mut agent);
    let v = success(outcome);
    assert_eq!(v.get("n2").unwrap().get("output").unwrap().as_str(), Some("summarize X"));
}

#[test]
fn submit_fails_on_bad_dag_json() {
    let orch = Orchestrator::new(planner_and_workers(), ExecutionStore::new());
    let (outcome, _) = submit(orch, "null", r#"{"not": "a dag"}"#, &mut |_, m| echo(m));
    assert!(matches!(outcome, Outcome::Failed { .. }));
}

#[test]
fn submit_persists_dag_in_shared_store() {
    let orch = Orchestrator::new(planner_and_workers(), ExecutionStore::new());
    let plan = r#"{ "nodes": [ { "id": "n1", "capability": "work", "depends_on": [] } ] }"#;
    let (outcome, store) = submit(orch, r#"{"goal": "x"}"#, plan, &mut |_, m| echo(m));
    assert!(matches!(outcome, Outcome::Success(_)), "got {outcome:?}");
    let (record, _) = store.load_execution(WID_TEXT).unwrap();
    assert_eq!(record.status, ExecutionStatus::Succeeded);
    let parsed = DagSpec::parse(&json(&record.workflow_spec)).unwrap();
    assert_eq!(parsed.nodes[0].id, "n1");
    assert_eq!(parsed.nodes[0].capability.as_deref(), Some("work"));
}

#[test]
fn recover_by_id_redrives_active_execution_after_reopen() {
    let dag = r#"{ "nodes": [
        { "id": "a", "capability": "work", "depends_on": [] },
        { "id": "b", "capability": "work", "depends_on": ["a"] }
    ] }"#;
    let mut exec = ExecutionStore::new();
    let names = vec!["a".to_string(), "b".to_string()];
    exec.create_execution(WID_TEXT, dag, "null", &names, &NOW.to_text()).unwrap();
    exec.complete_node(WID_TEXT, "a", r#"{"v":1}"#, &NOW.to_text());
    let orch = Orchestrator::new(planner_and_workers(), exec);

    let active = orch.recoverable();
    assert_eq!(active.len(), 1, "one active execution after reopen");
    assert_eq!(active[0].workflow_id, WID_TEXT);

    let (registry, workflow) = orch.rebuild(WID).unwrap();
    let mut sup =
        Supervisor::with_store(registry, orch.execution_store, "driver".to_string());
    let d = sup.begin_recover(WID, &workflow, NOW).unwrap();
    let outcome = drive(&mut sup, &workflow, d, &mut |_, m| echo(m), &no_conditions);
    assert!(matches!(outcome, Outcome::Success(_)), "got {outcome:?}");
    assert_eq!(status(&sup), ExecutionStatus::Succeeded);
    assert_eq!(record(&sup, "b").status, NodeStatus::Done);
}

#[test]
fn rebuild_of_an_unknown_execution_fails() {
    let orch = Orchestrator::new(planner_and_workers(), ExecutionStore::new());
    match orch.rebuild(WID) {
        Err(Outcome::Failed { error, .. }) => assert!(error.contains("no such execution")),
        other => panic!("expected a failure, got {}", other.is_ok()),
    }
    assert_eq!(orch.suspended_node(WID), None);
}

#[test]
fn suspended_node_is_found() {
    let sup = parked_with(GATE, None);
    let orch = Orchestrator::new(RegistryStore::new(), sup.into_store());
    assert_eq!(orch.suspended_node(WID), Some("gate".to_string()));
}

#[test]
fn list_capabilities_dedupes_across_healthy() {
    let store = store_with(&[
        ("i1", "a", "http://127.0.0.1:1", &["research", "write"], RegistryStatus::Healthy),
        ("i2", "b", "http://127.0.0.1:2", &["write"], RegistryStatus::Healthy),
        ("i3", "c", "http://127.0.0.1:3", &["secret"], RegistryStatus::Unhealthy),
    ]);
    let orch = Orchestrator::new(store, ExecutionStore::new());
    assert_eq!(
        orch.list_capabilities(),
        vec!["research".to_string(), "write".to_string()]
    );
}

#[test]
fn dag_from_planner_output_tolerates_fences() {
    let resp = json(r#"{ "output": "```json\n{\"nodes\":[]}\n```" }"#);
    let dag = dag_from_planner_result(&resp).unwrap();
    assert_eq!(dag, json(r#"{ "nodes": [] }"#));
}

#[test]
fn dag_from_planner_output_errors_without_output_field() {
    assert!(dag_from_planner_result(&json(r#"{ "nope": 1 }"#)).is_err());
}

#[test]
fn expire_gates_fails_past_deadline_via_orchestrator() {
    let mut exec = ExecutionStore::new();
    exec.create_execution("wf", "{}", "{}", &vec!["a".to_string()], &NOW.to_text()).unwrap();
    let deadline = Some("2000-01-01T00:00:00+00:00".to_string());
    exec.park_node("wf", "a", "s", "ap", "phase_gate", "ok?", &deadline, &NOW.to_text());
    let mut orch = Orchestrator::new(RegistryStore::new(), exec);
    let expired = orch.expire_gates(NOW);
    assert_eq!(expired, vec![("wf".to_string(), "a".to_string())]);
    let (e, _) = orch.execution_store.load_execution("wf").unwrap();
    assert_eq!(e.status, ExecutionStatus::Failed);
}

#[test]
fn workflow_is_kept_with_its_edges() {
    let r = reg(&["a", "b"]);
    let wf = Workflow::builder(&r).edge("a", "b").build().unwrap();
    assert_eq!(
        serialize_workflow_spec(&wf),
        r#"{"edges":[{"from":"a","to":"b"}],"entries":["a"]}"#
    );
}

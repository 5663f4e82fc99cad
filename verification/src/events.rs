//! What a supervisor tells those who watch it.

use vstd::prelude::*;
use vstd::string::*;
use crate::dag;
use crate::error::{Outcome, OutcomeView};
use crate::ids;
use crate::json::{Json, JsonView, NumberView};
use crate::supervisor;
use crate::text;
use crate::text_map::TextMap;
use crate::types::HealthStatus;

verus! {

/// Something that happened to a run or to an agent.
#[derive(Debug, PartialEq)]
pub enum SupervisorEvent {
    WorkflowStarted { workflow_id: u128, entries: Vec<String> },
    WorkflowFinished { workflow_id: u128, result: Outcome },
    TaskDispatched { workflow_id: u128, node: String, envelope_id: u128 },
    TaskCompleted { workflow_id: u128, node: String, envelope_id: u128, elapsed_ms: u64 },
    TaskFailed { workflow_id: u128, node: String, error: String, attempt: usize },
    AgentRestarted { node: String, reason: String },
    AgentHealthCheck { node: String, status: HealthStatus },
    NodeSuspended {
        workflow_id: u128,
        node: String,
        session_id: String,
        approval_id: String,
        kind: String,
        prompt: String,
    },
}

/// A `HealthStatus` as a mathematical value.
pub enum HealthView {
    Healthy,
    Degraded { reason: Seq<char> },
    Unreachable,
}

impl View for HealthStatus {
    type V = HealthView;

    open spec fn view(&self) -> HealthView {
        match *self {
            HealthStatus::Healthy => HealthView::Healthy,
            HealthStatus::Degraded { reason } => HealthView::Degraded { reason: reason@ },
            HealthStatus::Unreachable => HealthView::Unreachable,
        }
    }
}

/// A `SupervisorEvent` as a mathematical value.
#[verifier::ext_equal]
pub enum EventView {
    WorkflowStarted { workflow_id: u128, entries: Seq<Seq<char>> },
    WorkflowFinished { workflow_id: u128, result: OutcomeView },
    TaskDispatched { workflow_id: u128, node: Seq<char>, envelope_id: u128 },
    TaskCompleted { workflow_id: u128, node: Seq<char>, envelope_id: u128, elapsed_ms: u64 },
    TaskFailed { workflow_id: u128, node: Seq<char>, error: Seq<char>, attempt: usize },
    AgentRestarted { node: Seq<char>, reason: Seq<char> },
    AgentHealthCheck { node: Seq<char>, status: HealthView },
    NodeSuspended {
        workflow_id: u128,
        node: Seq<char>,
        session_id: Seq<char>,
        approval_id: Seq<char>,
        kind: Seq<char>,
        prompt: Seq<char>,
    },
}

impl View for SupervisorEvent {
    type V = EventView;

    open spec fn view(&self) -> EventView {
        match *self {
            SupervisorEvent::WorkflowStarted { workflow_id, entries } => EventView::WorkflowStarted {
                workflow_id,
                entries: text::strs(entries@),
            },
            SupervisorEvent::WorkflowFinished { workflow_id, result } => EventView::WorkflowFinished {
                workflow_id,
                result: result@,
            },
            SupervisorEvent::TaskDispatched { workflow_id, node, envelope_id } => EventView::TaskDispatched {
                workflow_id,
                node: node@,
                envelope_id,
            },
            SupervisorEvent::TaskCompleted { workflow_id, node, envelope_id, elapsed_ms } => EventView::TaskCompleted {
                workflow_id,
                node: node@,
                envelope_id,
                elapsed_ms,
            },
            SupervisorEvent::TaskFailed { workflow_id, node, error, attempt } => EventView::TaskFailed {
                workflow_id,
                node: node@,
                error: error@,
                attempt,
            },
            SupervisorEvent::AgentRestarted { node, reason } => EventView::AgentRestarted {
                node: node@,
                reason: reason@,
            },
            SupervisorEvent::AgentHealthCheck { node, status } => EventView::AgentHealthCheck {
                node: node@,
                status: status@,
            },
            SupervisorEvent::NodeSuspended { workflow_id, node, session_id, approval_id, kind, prompt } => EventView::NodeSuspended {
                workflow_id,
                node: node@,
                session_id: session_id@,
                approval_id: approval_id@,
                kind: kind@,
                prompt: prompt@,
            },
        }
    }
}

/// The views of a sequence of events.
pub open spec fn event_views(s: Seq<SupervisorEvent>) -> Seq<EventView> {
    Seq::new(s.len(), |i: int| s[i]@)
}

impl HealthView {
    /// The JSON form.
    pub open spec fn json(self) -> JsonView {
        match self {
            HealthView::Healthy => JsonView::Text("Healthy"@),
            HealthView::Degraded { reason } => JsonView::Object(
                map!["Degraded"@ => JsonView::Object(map!["reason"@ => JsonView::Text(reason)])],
            ),
            HealthView::Unreachable => JsonView::Text("Unreachable"@),
        }
    }
}

impl EventView {
    /// The name of the event.
    pub open spec fn name(self) -> Seq<char> {
        match self {
            EventView::WorkflowStarted { .. } => "WorkflowStarted"@,
            EventView::WorkflowFinished { .. } => "WorkflowFinished"@,
            EventView::TaskDispatched { .. } => "TaskDispatched"@,
            EventView::TaskCompleted { .. } => "TaskCompleted"@,
            EventView::TaskFailed { .. } => "TaskFailed"@,
            EventView::AgentRestarted { .. } => "AgentRestarted"@,
            EventView::AgentHealthCheck { .. } => "AgentHealthCheck"@,
            EventView::NodeSuspended { .. } => "NodeSuspended"@,
        }
    }

    /// What is told with the event.
    pub open spec fn fields(self) -> Map<Seq<char>, JsonView> {
        match self {
            EventView::WorkflowStarted { workflow_id, entries } => map![
                "workflow_id"@ => JsonView::Text(ids::id_text(workflow_id)),
                "entries"@ => dag::texts_json(entries),
            ],
            EventView::WorkflowFinished { workflow_id, result } => map![
                "workflow_id"@ => JsonView::Text(ids::id_text(workflow_id)),
                "result"@ => result.json(),
            ],
            EventView::TaskDispatched { workflow_id, node, envelope_id } => map![
                "workflow_id"@ => JsonView::Text(ids::id_text(workflow_id)),
                "node"@ => JsonView::Text(node),
                "envelope_id"@ => JsonView::Text(ids::id_text(envelope_id)),
            ],
            EventView::TaskCompleted { workflow_id, node, envelope_id, elapsed_ms } => map![
                "workflow_id"@ => JsonView::Text(ids::id_text(workflow_id)),
                "node"@ => JsonView::Text(node),
                "envelope_id"@ => JsonView::Text(ids::id_text(envelope_id)),
                "elapsed"@ => JsonView::Number(NumberView::Int(elapsed_ms as int)),
            ],
            EventView::TaskFailed { workflow_id, node, error, attempt } => map![
                "workflow_id"@ => JsonView::Text(ids::id_text(workflow_id)),
                "node"@ => JsonView::Text(node),
                "error"@ => JsonView::Text(error),
                "attempt"@ => JsonView::Number(NumberView::Int(attempt as int)),
            ],
            EventView::AgentRestarted { node, reason } => map![
                "node"@ => JsonView::Text(node),
                "reason"@ => JsonView::Text(reason),
            ],
            EventView::AgentHealthCheck { node, status } => map![
                "node"@ => JsonView::Text(node),
                "status"@ => status.json(),
            ],
            EventView::NodeSuspended { workflow_id, node, session_id, approval_id, kind, prompt } => map![
                "workflow_id"@ => JsonView::Text(ids::id_text(workflow_id)),
                "node"@ => JsonView::Text(node),
                "session_id"@ => JsonView::Text(session_id),
                "approval_id"@ => JsonView::Text(approval_id),
                "kind"@ => JsonView::Text(kind),
                "prompt"@ => JsonView::Text(prompt),
            ],
        }
    }

    /// The JSON form: one member, named after the event.
    pub open spec fn json(self) -> JsonView {
        JsonView::Object(map![self.name() => JsonView::Object(self.fields())])
    }
}

impl HealthStatus {
    /// The JSON form.
    pub fn to_json(&self) -> (r: Json)
        ensures
            r@ == self@.json(),
    {
        match self {
            HealthStatus::Healthy => Json::text("Healthy"),
            HealthStatus::Unreachable => Json::text("Unreachable"),
            HealthStatus::Degraded { reason } => {
                let mut m: TextMap<Json> = TextMap::new();
                m.insert("reason".to_string(), Json::text(reason.as_str()));
                let inner = Json::Object(m);
                assert(inner@->Object_0 =~= map!["reason"@ => JsonView::Text(reason@)]);
                let mut n: TextMap<Json> = TextMap::new();
                n.insert("Degraded".to_string(), inner);
                let r = Json::Object(n);
                assert(r@->Object_0 =~= self@.json()->Object_0);
                r
            },
        }
    }
}

impl SupervisorEvent {
    fn name(&self) -> (r: &'static str)
        ensures
            r@ == self@.name(),
    {
        match self {
            SupervisorEvent::WorkflowStarted { .. } => "WorkflowStarted",
            SupervisorEvent::WorkflowFinished { .. } => "WorkflowFinished",
            SupervisorEvent::TaskDispatched { .. } => "TaskDispatched",
            SupervisorEvent::TaskCompleted { .. } => "TaskCompleted",
            SupervisorEvent::TaskFailed { .. } => "TaskFailed",
            SupervisorEvent::AgentRestarted { .. } => "AgentRestarted",
            SupervisorEvent::AgentHealthCheck { .. } => "AgentHealthCheck",
            SupervisorEvent::NodeSuspended { .. } => "NodeSuspended",
        }
    }

    fn fields(&self) -> (r: Json)
        ensures
            r@ == JsonView::Object(self@.fields()),
    {
        let mut m: TextMap<Json> = TextMap::new();
        match self {
            SupervisorEvent::WorkflowStarted { workflow_id, entries } => {
                let list = supervisor::text_list(entries);
                assert(list@->List_0 =~= dag::texts_json(text::strs(entries@))->List_0);
                m.insert("workflow_id".to_string(), Json::string(ids::text_of_id(*workflow_id)));
                m.insert("entries".to_string(), list);
            },
            SupervisorEvent::WorkflowFinished { workflow_id, result } => {
                m.insert("workflow_id".to_string(), Json::string(ids::text_of_id(*workflow_id)));
                m.insert("result".to_string(), result.to_json());
            },
            SupervisorEvent::TaskDispatched { workflow_id, node, envelope_id } => {
                m.insert("workflow_id".to_string(), Json::string(ids::text_of_id(*workflow_id)));
                m.insert("node".to_string(), Json::text(node.as_str()));
                m.insert("envelope_id".to_string(), Json::string(ids::text_of_id(*envelope_id)));
            },
            SupervisorEvent::TaskCompleted { workflow_id, node, envelope_id, elapsed_ms } => {
                m.insert("workflow_id".to_string(), Json::string(ids::text_of_id(*workflow_id)));
                m.insert("node".to_string(), Json::text(node.as_str()));
                m.insert("envelope_id".to_string(), Json::string(ids::text_of_id(*envelope_id)));
                m.insert("elapsed".to_string(), Json::uint(*elapsed_ms));
            },
            SupervisorEvent::TaskFailed { workflow_id, node, error, attempt } => {
                m.insert("workflow_id".to_string(), Json::string(ids::text_of_id(*workflow_id)));
                m.insert("node".to_string(), Json::text(node.as_str()));
                m.insert("error".to_string(), Json::text(error.as_str()));
                m.insert("attempt".to_string(), Json::uint(*attempt as u64));
            },
            SupervisorEvent::AgentRestarted { node, reason } => {
                m.insert("node".to_string(), Json::text(node.as_str()));
                m.insert("reason".to_string(), Json::text(reason.as_str()));
            },
            SupervisorEvent::AgentHealthCheck { node, status } => {
                m.insert("node".to_string(), Json::text(node.as_str()));
                m.insert("status".to_string(), status.to_json());
            },
            SupervisorEvent::NodeSuspended { workflow_id, node, session_id, approval_id, kind, prompt } => {
                m.insert("workflow_id".to_string(), Json::string(ids::text_of_id(*workflow_id)));
                m.insert("node".to_string(), Json::text(node.as_str()));
                m.insert("session_id".to_string(), Json::text(session_id.as_str()));
                m.insert("approval_id".to_string(), Json::text(approval_id.as_str()));
                m.insert("kind".to_string(), Json::text(kind.as_str()));
                m.insert("prompt".to_string(), Json::text(prompt.as_str()));
            },
        }
        let r = Json::Object(m);
        assert(r@->Object_0 =~= self@.fields());
        r
    }

    /// The JSON form.
    pub fn to_json(&self) -> (r: Json)
        ensures
            r@ == self@.json(),
    {
        let inner = self.fields();
        let mut m: TextMap<Json> = TextMap::new();
        m.insert(self.name().to_string(), inner);
        let r = Json::Object(m);
        assert(r@->Object_0 =~= self@.json()->Object_0);
        r
    }
}

} // verus!

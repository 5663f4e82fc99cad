//! Running a workflow: which nodes are ready, what an answer does to the
//! execution, and how a run ends, resumes and recovers.

use vstd::prelude::*;
use vstd::string::*;
use crate::clock;
use crate::clock::Instant;
use crate::envelope::{Envelope, EnvelopeKind, EnvelopeView};
use crate::error::{workflow_error, AetherError, ErrorView, Outcome, OutcomeView};
use crate::events;
use crate::events::{EventView, SupervisorEvent};
use crate::execution_store;
use crate::execution_store::{
    ExecutionNodeRecord, ExecutionStatus, ExecutionStore, NodeStatus, NodeView, StoreView,
};
use crate::ids;
use crate::json;
use crate::json::{Json, JsonView};
use crate::registry::AgentRegistry;
use crate::resume;
use crate::resume::{ApprovalDecision, ResumeRequest, SuspendPayload, SuspendView};
use crate::text;
use crate::text_map::TextMap;
use crate::types::{copy_labels, copy_texts, AgentNode, AgentNodeView};
use crate::workflow;
use crate::workflow::{Answers, EdgeView, Workflow, WorkflowView};

verus! {

/// The node `id` among the nodes of an execution.
pub open spec fn node_in(nodes: Seq<NodeView>, id: Seq<char>) -> Option<NodeView> {
    execution_store::first(nodes, |n: NodeView| n.node_id == id)
}

/// Whether the node `id` stands as `status`.
pub open spec fn stands(nodes: Seq<NodeView>, id: Seq<char>, status: NodeStatus) -> bool {
    node_in(nodes, id) matches Some(n) && n.status == status
}

/// A stored JSON text as a value; a text that is no JSON as `null`.
pub open spec fn stored_value(s: Seq<char>) -> JsonView {
    match json::json_parse(s) {
        Ok(v) => v,
        Err(_) => JsonView::Null,
    }
}

/// The output of the node `id`; `null` where it has none.
pub open spec fn output_in(nodes: Seq<NodeView>, id: Seq<char>) -> JsonView {
    match node_in(nodes, id) {
        Some(n) => match n.output {
            Some(s) => stored_value(s),
            None => JsonView::Null,
        },
        None => JsonView::Null,
    }
}

/// The nodes that `id` waits for, one for each edge into it.
pub open spec fn upstream(w: WorkflowView, id: Seq<char>) -> Seq<Seq<char>> {
    Seq::new(w.incoming(id).len(), |i: int| w.incoming(id)[i].from)
}

/// Whether all nodes that `id` waits for are done.
pub open spec fn unblocked(w: WorkflowView, nodes: Seq<NodeView>, id: Seq<char>) -> bool {
    forall|i: int|
        0 <= i < upstream(w, id).len() ==> stands(
            nodes,
            #[trigger] upstream(w, id)[i],
            NodeStatus::Done,
        )
}

/// What `id` is given to work on: the output of the one node that it waits for,
/// or the outputs of several, each under the name of its node.
pub open spec fn gathered(w: WorkflowView, nodes: Seq<NodeView>, id: Seq<char>) -> JsonView {
    let deps = upstream(w, id);
    if deps.len() == 1 {
        output_in(nodes, deps[0])
    } else {
        JsonView::Object(
            Map::new(|k: Seq<char>| deps.contains(k), |k: Seq<char>| output_in(nodes, k)),
        )
    }
}

/// What a pending node is given once all nodes that it waits for are done.
pub open spec fn ready_input(w: WorkflowView, nodes: Seq<NodeView>, id: Seq<char>) -> Option<JsonView> {
    if stands(nodes, id, NodeStatus::Pending) && unblocked(w, nodes, id) {
        Some(gathered(w, nodes, id))
    } else {
        None
    }
}

/// The node `id` among the rows of an execution.
fn find_node<'a>(nodes: &'a Vec<ExecutionNodeRecord>, id: &str) -> (r: Option<&'a ExecutionNodeRecord>)
    ensures
        match r {
            Some(n) => node_in(execution_store::node_views(nodes@), id@) == Some(n@),
            None => node_in(execution_store::node_views(nodes@), id@) is None,
        },
{
    let ghost p = |n: NodeView| n.node_id == id@;
    let ghost s = execution_store::node_views(nodes@);
    let mut i: usize = 0;
    while i < nodes.len()
        invariant
            i <= nodes@.len(),
            s == execution_store::node_views(nodes@),
            p == (|n: NodeView| n.node_id == id@),
            forall|j: int| 0 <= j < i ==> !p(#[trigger] s[j]),
        decreases nodes@.len() - i,
    {
        assert(s[i as int] == nodes@[i as int]@);
        if text::same(nodes[i].node_id.as_str(), id) {
            proof {
                execution_store::lemma_first_at(s, p, i as int);
            }
            return Some(&nodes[i]);
        }
        i += 1;
    }
    proof {
        execution_store::lemma_first_at(s, p, i as int);
    }
    None
}

fn is_standing(nodes: &Vec<ExecutionNodeRecord>, id: &str, status: NodeStatus) -> (r: bool)
    ensures
        r == stands(execution_store::node_views(nodes@), id@, status),
{
    match find_node(nodes, id) {
        Some(n) => n.status == status,
        None => false,
    }
}

/// See `stored_value`.
fn read_stored(s: &str) -> (r: Json)
    ensures
        r@ == stored_value(s@),
{
    match Json::parse(s) {
        Ok(v) => v,
        Err(_) => Json::Null,
    }
}

fn read_output(nodes: &Vec<ExecutionNodeRecord>, id: &str) -> (r: Json)
    ensures
        r@ == output_in(execution_store::node_views(nodes@), id@),
{
    match find_node(nodes, id) {
        Some(n) => match &n.output {
            Some(s) => read_stored(s.as_str()),
            None => Json::Null,
        },
        None => Json::Null,
    }
}

/// See `upstream`.
fn list_upstream(workflow: &Workflow, id: &str) -> (r: Vec<String>)
    ensures
        text::strs(r@) == upstream(workflow@, id@),
{
    let edges = workflow.incoming(id);
    let mut out: Vec<String> = Vec::new();
    let mut i: usize = 0;
    while i < edges.len()
        invariant
            i <= edges@.len(),
            workflow::edge_ref_views(edges@) == workflow@.incoming(id@),
            out@.len() == i,
            forall|j: int| 0 <= j < i ==> (#[trigger] out@[j])@ == upstream(workflow@, id@)[j],
        decreases edges@.len() - i,
    {
        assert(workflow::edge_ref_views(edges@)[i as int] == edges@[i as int]@);
        out.push(edges[i].from.clone());
        i += 1;
    }
    assert(workflow::edge_ref_views(edges@).len() == edges@.len());
    assert(text::strs(out@) =~= upstream(workflow@, id@));
    out
}

/// See `unblocked`.
fn is_unblocked(workflow: &Workflow, nodes: &Vec<ExecutionNodeRecord>, id: &str) -> (r: bool)
    ensures
        r == unblocked(workflow@, execution_store::node_views(nodes@), id@),
{
    let deps = list_upstream(workflow, id);
    let ghost us = upstream(workflow@, id@);
    let mut i: usize = 0;
    while i < deps.len()
        invariant
            i <= deps@.len(),
            us == upstream(workflow@, id@),
            text::strs(deps@) == us,
            forall|j: int| 0 <= j < i ==> stands(execution_store::node_views(nodes@), #[trigger] us[j], NodeStatus::Done),
        decreases deps@.len() - i,
    {
        assert(text::strs(deps@)[i as int] == deps@[i as int]@);
        if !is_standing(nodes, deps[i].as_str(), NodeStatus::Done) {
            return false;
        }
        i += 1;
    }
    assert(text::strs(deps@).len() == deps@.len());
    true
}

/// See `gathered`.
fn gather(workflow: &Workflow, nodes: &Vec<ExecutionNodeRecord>, id: &str) -> (r: Json)
    ensures
        r@ == gathered(workflow@, execution_store::node_views(nodes@), id@),
{
    let deps = list_upstream(workflow, id);
    let ghost us = upstream(workflow@, id@);
    let ghost ns = execution_store::node_views(nodes@);
    assert(text::strs(deps@).len() == deps@.len());
    if deps.len() == 1 {
        assert(text::strs(deps@)[0] == deps@[0]@);
        return read_output(nodes, deps[0].as_str());
    }
    let mut m: TextMap<Json> = TextMap::new();
    let mut i: usize = 0;
    while i < deps.len()
        invariant
            i <= deps@.len(),
            text::strs(deps@) == us,
            us.len() == deps@.len(),
            ns == execution_store::node_views(nodes@),
            forall|k: Seq<char>| #[trigger] m@.dom().contains(k) <==> us.take(i as int).contains(k),
            forall|k: Seq<char>| #[trigger] m@.dom().contains(k) ==> m@[k]@ == output_in(ns, k),
        decreases deps@.len() - i,
    {
        proof {
            text::lemma_take_more(us, i + 1);
            assert(us[i as int] == deps@[i as int]@);
        }
        m.insert(deps[i].clone(), read_output(nodes, deps[i].as_str()));
        i += 1;
    }
    assert(us.take(us.len() as int) =~= us);
    let r = Json::Object(m);
    assert(r@->Object_0 =~= gathered(workflow@, ns, id@)->Object_0);
    r
}

/// Runs workflows over the agents of a registry and keeps the executions in a
/// store. Calls to agents are made by the embedding program, which hands their
/// answers back.
#[derive(Debug)]
pub struct Supervisor {
    registry: AgentRegistry,
    store: ExecutionStore,
    driver_id: String,
    outbox: Vec<SupervisorEvent>,
}

/// A `Supervisor` as a mathematical value.
#[verifier::ext_equal]
pub struct SupervisorView {
    pub agents: Map<Seq<char>, AgentNodeView>,
    pub store: StoreView,
    pub driver: Seq<char>,
    pub events: Seq<EventView>,
}

impl View for Supervisor {
    type V = SupervisorView;

    closed spec fn view(&self) -> SupervisorView {
        SupervisorView {
            agents: self.registry@,
            store: self.store@,
            driver: self.driver_id@,
            events: events::event_views(self.outbox@),
        }
    }
}

/// A run between two answers: nodes that can be handed out, with their input.
#[derive(Debug, PartialEq)]
pub struct Drive {
    pub workflow_id: u128,
    pub ready: Vec<(String, Json)>,
}

/// Names with values, as mathematical values.
pub open spec fn task_views(s: Seq<(String, Json)>) -> Seq<(Seq<char>, JsonView)> {
    Seq::new(s.len(), |i: int| (s[i].0@, s[i].1@))
}

/// How a failure is told to the one who asked for the run.
pub open spec fn failure_outcome(e: ErrorView) -> OutcomeView {
    match e {
        ErrorView::AgentTimeout { node } => OutcomeView::Timeout { node },
        ErrorView::AgentFailed { node, message } => OutcomeView::Failed { node, error: message },
        ErrorView::TransportError { node, message } => OutcomeView::Failed { node, error: message },
        _ => OutcomeView::Failed { node: Seq::empty(), error: e.words() },
    }
}

/// The words that a failure leaves with the execution.
pub open spec fn failure_words(e: ErrorView) -> Seq<char> {
    match e {
        ErrorView::AgentFailed { message, .. } => message,
        ErrorView::TransportError { message, .. } => message,
        _ => e.words(),
    }
}

/// The deadline of a gate: the one that the agent names, brought to UTC, or the
/// default of its node counted from `now`.
pub open spec fn deadline_for(
    agents: Map<Seq<char>, AgentNodeView>,
    node: Seq<char>,
    p: SuspendView,
    now: Instant,
) -> Option<Seq<char>> {
    match p.gate_deadline {
        Some(d) => Some(clock::in_utc(d)),
        None => if agents.dom().contains(node) {
            match agents[node].gate_deadline_secs {
                Some(secs) => Some(now.after(secs).words()),
                None => None,
            }
        } else {
            None
        },
    }
}

/// Whether the default deadline of a node, counted from `now`, is a moment that a
/// date can name.
pub open spec fn deadline_fits(
    agents: Map<Seq<char>, AgentNodeView>,
    node: Seq<char>,
    now: Instant,
) -> bool {
    agents.dom().contains(node) ==> (agents[node].gate_deadline_secs matches Some(secs)
        ==> now.reaches(secs))
}

/// Whether a node that asks for a decision would have a deadline that no date names:
/// its agent names none, and the default of the node is out of reach.
pub open spec fn undatable(
    agents: Map<Seq<char>, AgentNodeView>,
    node: Seq<char>,
    p: SuspendView,
    now: Instant,
) -> bool {
    p.gate_deadline is None && !deadline_fits(agents, node, now)
}

/// The error for a node whose default deadline no date names.
pub open spec fn no_date(node: Seq<char>) -> ErrorView {
    ErrorView::WorkflowError { message: "gate deadline of '"@ + node + "' is not a date"@ }
}

impl SupervisorView {
    /// With other rows.
    pub open spec fn with_store(self, store: StoreView) -> SupervisorView {
        SupervisorView { store, ..self }
    }

    /// With one more event.
    pub open spec fn told(self, e: EventView) -> SupervisorView {
        SupervisorView { events: self.events.push(e), ..self }
    }

    /// After a failure that ends the execution `wid`.
    pub open spec fn failed(self, wid: Seq<char>, e: ErrorView, t: Seq<char>) -> SupervisorView {
        self.with_store(
            self.store.finished(wid, ExecutionStatus::Failed, None, Some(failure_words(e)), t),
        )
    }

    /// After a node has asked for a decision.
    pub open spec fn parked(
        self,
        id: u128,
        node: Seq<char>,
        p: SuspendView,
        now: Instant,
    ) -> SupervisorView {
        self.with_store(
            self.store.parked(
                ids::id_text(id),
                node,
                p.session_id,
                p.approval_id,
                p.kind,
                p.prompt,
                deadline_for(self.agents, node, p, now),
                now.words(),
            ),
        ).told(
            EventView::NodeSuspended {
                workflow_id: id,
                node,
                session_id: p.session_id,
                approval_id: p.approval_id,
                kind: p.kind,
                prompt: p.prompt,
            },
        )
    }
}

/// See `no_date`.
fn undatable_error(node: &str) -> (r: AetherError)
    ensures
        r@ == no_date(node@),
{
    let mut message = text::cat("gate deadline of '", node);
    message.append("' is not a date");
    AetherError::WorkflowError { message }
}

/// The nodes that become ready when edges are followed, each with its input.
pub open spec fn newly_ready(
    w: WorkflowView,
    nodes: Seq<NodeView>,
    edges: Seq<EdgeView>,
    tests: Seq<bool>,
    capabilities: Seq<Seq<char>>,
    n: nat,
) -> Seq<(Seq<char>, JsonView)>
    decreases n,
{
    if n == 0 {
        Seq::empty()
    } else {
        let prior = newly_ready(w, nodes, edges, tests, capabilities, (n - 1) as nat);
        let e = edges[n - 1];
        if e.fires(tests, capabilities) && ready_input(w, nodes, e.to) is Some {
            prior.push((e.to, ready_input(w, nodes, e.to)->0))
        } else {
            prior
        }
    }
}

/// Whether one of the edges is followed.
pub open spec fn some_fires(
    edges: Seq<EdgeView>,
    tests: Seq<bool>,
    capabilities: Seq<Seq<char>>,
) -> bool {
    exists|i: int| 0 <= i < edges.len() && (#[trigger] edges[i]).fires(tests, capabilities)
}

/// What a step of a run leaves: the supervisor, the ready nodes, and the outcome
/// where the run is over.
#[verifier::ext_equal]
pub struct StepView {
    pub supervisor: SupervisorView,
    pub ready: Seq<(Seq<char>, JsonView)>,
    pub outcome: Option<OutcomeView>,
}

/// The error for an execution whose row is gone.
pub open spec fn vanished() -> ErrorView {
    ErrorView::WorkflowError { message: "execution vanished"@ }
}

/// After a node was answered in full: its output is kept, and the nodes behind it
/// may become ready.
pub open spec fn after_completion(
    s: SupervisorView,
    ready: Seq<(Seq<char>, JsonView)>,
    w: WorkflowView,
    id: u128,
    node: Seq<char>,
    payload: JsonView,
    tests: Seq<bool>,
    capabilities: Seq<Seq<char>>,
    t: Seq<char>,
) -> StepView {
    let wid = ids::id_text(id);
    let done = s.with_store(s.store.completed(wid, node, json::json_text(payload), t));
    let edges = w.outgoing(node);
    if some_fires(edges, tests, capabilities) && done.store.row(wid) is None {
        StepView {
            supervisor: done.failed(wid, vanished(), t),
            ready,
            outcome: Some(failure_outcome(vanished())),
        }
    } else {
        StepView {
            supervisor: done,
            ready: ready + newly_ready(
                w,
                done.store.nodes_of(wid),
                edges,
                tests,
                capabilities,
                edges.len(),
            ),
            outcome: None,
        }
    }
}

/// The error for a `Suspended` answer that cannot be read.
pub open spec fn malformed(node: Seq<char>, complaint: Seq<char>) -> ErrorView {
    ErrorView::WorkflowError {
        message: "malformed Suspended payload from '"@ + node + "': "@ + complaint,
    }
}

/// The failure that the answer to a task is, if it is one: an error, or the payload
/// of an error answer.
pub open spec fn task_failure(node: Seq<char>, reply: Result<EnvelopeView, ErrorView>) -> Option<ErrorView> {
    match reply {
        Err(e) => Some(e),
        Ok(env) => if env.kind == EnvelopeKind::Error {
            Some(ErrorView::AgentFailed { node, message: json::json_text(env.payload) })
        } else {
            None
        },
    }
}

/// After the answer to a task: a failure ends the run, a question parks the node
/// and follows no edge, and an answer completes it. A question that cannot be read,
/// or whose deadline no date names, is a failure.
pub open spec fn after_task(
    s: SupervisorView,
    ready: Seq<(Seq<char>, JsonView)>,
    w: WorkflowView,
    id: u128,
    node: Seq<char>,
    reply: Result<EnvelopeView, ErrorView>,
    envelope_id: u128,
    elapsed_ms: u64,
    tests: Seq<bool>,
    capabilities: Seq<Seq<char>>,
    now: Instant,
) -> StepView {
    let wid = ids::id_text(id);
    let t = now.words();
    match task_failure(node, reply) {
        Some(e) => StepView {
            supervisor: s.failed(wid, e, t),
            ready,
            outcome: Some(failure_outcome(e)),
        },
        None => {
            let env = reply->Ok_0;
            let told = s.told(
                EventView::TaskCompleted { workflow_id: id, node, envelope_id, elapsed_ms },
            );
            if env.kind == EnvelopeKind::Suspended {
                match resume::suspend_of(env.payload) {
                    Err(complaint) => StepView {
                        supervisor: told.failed(wid, malformed(node, complaint), t),
                        ready,
                        outcome: Some(failure_outcome(malformed(node, complaint))),
                    },
                    Ok(p) => if undatable(s.agents, node, p, now) {
                        StepView {
                            supervisor: told.failed(wid, no_date(node), t),
                            ready,
                            outcome: Some(failure_outcome(no_date(node))),
                        }
                    } else {
                        StepView {
                            supervisor: told.parked(id, node, p, now),
                            ready,
                            outcome: None,
                        }
                    },
                }
            } else {
                after_completion(told, ready, w, id, node, env.payload, tests, capabilities, t)
            }
        },
    }
}

/// Where an answer completes its node and is not nested too deeply to be read, what
/// is kept of it reads back as the answer.
pub open spec fn kept_in_full(reply: Result<EnvelopeView, ErrorView>) -> bool {
    reply matches Ok(env) ==> env.kind != EnvelopeKind::Suspended && env.kind != EnvelopeKind::Error
        && json::nests_within(env.payload, 127) ==> stored_value(json::json_text(env.payload))
        == env.payload
}

/// An answer, or an error, as a mathematical value.
pub open spec fn reply_view(r: Result<Envelope, AetherError>) -> Result<EnvelopeView, ErrorView> {
    match r {
        Ok(env) => Ok(env@),
        Err(e) => Err(e@),
    }
}

/// An outcome, where there is one, as a mathematical value.
pub open spec fn outcome_view(o: Option<Outcome>) -> Option<OutcomeView> {
    match o {
        Some(x) => Some(x@),
        None => None,
    }
}

impl Supervisor {
    /// A supervisor over the agents of `registry` and the executions of `store`,
    /// known to other drivers as `driver_id`.
    pub fn with_store(registry: AgentRegistry, store: ExecutionStore, driver_id: String) -> (r: Supervisor)
        ensures
            r@ == (SupervisorView {
                agents: registry@,
                store: store@,
                driver: driver_id@,
                events: Seq::empty(),
            }),
    {
        let r = Supervisor { registry, store, driver_id, outbox: Vec::new() };
        assert(r@.events =~= Seq::empty());
        r
    }

    /// The agents.
    pub fn registry(&self) -> (r: &AgentRegistry)
        ensures
            r@ == self@.agents,
    {
        &self.registry
    }

    /// The executions.
    pub fn store(&self) -> (r: &ExecutionStore)
        ensures
            r@ == self@.store,
    {
        &self.store
    }

    /// Give the executions back.
    pub fn into_store(self) -> (r: ExecutionStore)
        ensures
            r@ == self@.store,
    {
        self.store
    }

    /// Hand out the events that have gathered.
    pub fn take_events(&mut self) -> (r: Vec<SupervisorEvent>)
        ensures
            events::event_views(r@) == old(self)@.events,
            final(self)@ == (SupervisorView { events: Seq::empty(), ..old(self)@ }),
    {
        let mut out: Vec<SupervisorEvent> = Vec::new();
        std::mem::swap(&mut out, &mut self.outbox);
        assert(self@ =~= SupervisorView { events: Seq::empty(), ..old(self)@ });
        out
    }

    fn tell(&mut self, e: SupervisorEvent)
        ensures
            final(self)@ == old(self)@.told(e@),
    {
        self.outbox.push(e);
        assert(self@.events =~= old(self)@.told(e@).events);
    }

    /// End an execution with a failure.
    fn fail_execution(&mut self, wid: &str, e: &AetherError, t: &str) -> (r: Outcome)
        ensures
            final(self)@ == old(self)@.failed(wid@, e@, t@),
            r@ == failure_outcome(e@),
    {
        match e {
            AetherError::AgentTimeout { node } => {
                let error = Some(e.to_string());
                self.store.finish_execution(wid, ExecutionStatus::Failed, &None, &error, t);
                Outcome::Timeout { node: node.clone() }
            },
            AetherError::AgentFailed { node, message } => {
                let error = Some(message.clone());
                self.store.finish_execution(wid, ExecutionStatus::Failed, &None, &error, t);
                Outcome::Failed { node: node.clone(), error: message.clone() }
            },
            AetherError::TransportError { node, message } => {
                let error = Some(message.clone());
                self.store.finish_execution(wid, ExecutionStatus::Failed, &None, &error, t);
                Outcome::Failed { node: node.clone(), error: message.clone() }
            },
            _ => {
                let error = Some(e.to_string());
                self.store.finish_execution(wid, ExecutionStatus::Failed, &None, &error, t);
                let node = String::new();
                assert(node@ =~= Seq::empty());
                Outcome::Failed { node, error: e.to_string() }
            },
        }
    }

    /// See `deadline_for`.
    fn effective_gate_deadline(&self, node_name: &str, p: &SuspendPayload, now: Instant) -> (r: Option<String>)
        requires
            now.usable(),
            !undatable(self@.agents, node_name@, p@, now),
        ensures
            text::opt(r) == deadline_for(self@.agents, node_name@, p@, now),
    {
        match &p.gate_deadline {
            Some(d) => Some(clock::to_utc(d.as_str())),
            None => match self.registry.get(node_name) {
                Some(n) => match n.gate_deadline_secs {
                    Some(secs) => Some(now.text_after(secs)),
                    None => None,
                },
                None => None,
            },
        }
    }

    /// See `undatable`.
    fn lacks_date(&self, node_name: &str, p: &SuspendPayload, now: Instant) -> (r: bool)
        requires
            now.usable(),
        ensures
            r == undatable(self@.agents, node_name@, p@, now),
    {
        match &p.gate_deadline {
            Some(_) => false,
            None => match self.registry.get(node_name) {
                Some(n) => match n.gate_deadline_secs {
                    Some(secs) => !now.can_reach(secs),
                    None => false,
                },
                None => false,
            },
        }
    }

    /// Park a node until a decision comes.
    fn park(&mut self, workflow_id: u128, node_name: &str, p: SuspendPayload, now: Instant)
        requires
            now.usable(),
            !undatable(old(self)@.agents, node_name@, p@, now),
        ensures
            final(self)@ == old(self)@.parked(workflow_id, node_name@, p@, now),
    {
        let wid = ids::text_of_id(workflow_id);
        let t = now.to_text();
        let deadline = self.effective_gate_deadline(node_name, &p, now);
        self.store.park_node(
            wid.as_str(),
            node_name,
            p.session_id.as_str(),
            p.approval_id.as_str(),
            p.kind.as_str(),
            p.prompt.as_str(),
            &deadline,
            t.as_str(),
        );
        self.tell(
            SupervisorEvent::NodeSuspended {
                workflow_id,
                node: node_name.to_string(),
                session_id: p.session_id,
                approval_id: p.approval_id,
                kind: p.kind,
                prompt: p.prompt,
            },
        );
    }

    /// The input of `to`, once it is pending and all nodes that it waits for are
    /// done.
    fn node_ready_input(&self, workflow: &Workflow, wid: &str, to: &str) -> (r: Result<Option<Json>, AetherError>)
        ensures
            match r {
                Ok(None) => self@.store.row(wid@) is Some && ready_input(
                    workflow@,
                    self@.store.nodes_of(wid@),
                    to@,
                ) is None,
                Ok(Some(v)) => self@.store.row(wid@) is Some && ready_input(
                    workflow@,
                    self@.store.nodes_of(wid@),
                    to@,
                ) == Some(v@),
                Err(e) => self@.store.row(wid@) is None && e@ == vanished(),
            },
    {
        let nodes = match self.store.load_execution(wid) {
            None => return Err(workflow_error("execution vanished")),
            Some((_, nodes)) => nodes,
        };
        if is_standing(&nodes, to, NodeStatus::Pending) && is_unblocked(workflow, &nodes, to) {
            Ok(Some(gather(workflow, &nodes, to)))
        } else {
            Ok(None)
        }
    }

    /// Follow the edges out of a node and gather the nodes that become ready. Where
    /// the row of the execution is gone, the end of the first edge comes back.
    fn expand(
        &self,
        ready: &mut Vec<(String, Json)>,
        workflow: &Workflow,
        wid: &str,
        node_name: &str,
        answers: &Answers,
    ) -> (r: Option<String>)
        ensures
            ({
                let edges = workflow@.outgoing(node_name@);
                let tests = answers.tests@;
                let caps = text::strs(answers.capabilities@);
                if self@.store.row(wid@) is None && some_fires(edges, tests, caps) {
                    &&& text::opt(r) == Some(first_fired(edges, tests, caps).to)
                    &&& task_views(final(ready)@) == task_views(old(ready)@)
                } else {
                    &&& r is None
                    &&& task_views(final(ready)@) == task_views(old(ready)@) + newly_ready(
                        workflow@,
                        self@.store.nodes_of(wid@),
                        edges,
                        tests,
                        caps,
                        edges.len(),
                    )
                }
            }),
    {
        let ghost ready0 = task_views(ready@);
        let ghost tests = answers.tests@;
        let ghost caps = text::strs(answers.capabilities@);
        let ghost p = |e: EdgeView| e.fires(tests, caps);
        let edges = workflow.outgoing(node_name);
        let ghost es = workflow@.outgoing(node_name@);
        let ghost nodes = self@.store.nodes_of(wid@);
        assert(workflow::edge_ref_views(edges@).len() == edges@.len());
        let mut i: usize = 0;
        assert(ready0 + newly_ready(workflow@, nodes, es, tests, caps, 0) =~= ready0);
        while i < edges.len()
            invariant
                i <= edges@.len(),
                edges@.len() == es.len(),
                workflow::edge_ref_views(edges@) == es,
                es == workflow@.outgoing(node_name@),
                tests == answers.tests@,
                caps == text::strs(answers.capabilities@),
                p == (|e: EdgeView| e.fires(tests, caps)),
                nodes == self@.store.nodes_of(wid@),
                ready0 == task_views(old(ready)@),
                forall|j: int| 0 <= j < i ==> self@.store.row(wid@) is Some || !(#[trigger] es[j]).fires(tests, caps),
                task_views(ready@) == ready0 + newly_ready(workflow@, nodes, es, tests, caps, i as nat),
            decreases edges@.len() - i,
        {
            assert(workflow::edge_ref_views(edges@)[i as int] == edges@[i as int]@);
            let ghost prior = task_views(ready@);
            let ghost grown = newly_ready(workflow@, nodes, es, tests, caps, i as nat);
            if edges[i].fires(answers) {
                match self.node_ready_input(workflow, wid, edges[i].to.as_str()) {
                    Ok(Some(input)) => {
                        let ghost x = input@;
                        ready.push((edges[i].to.clone(), input));
                        assert(task_views(ready@) =~= prior.push((es[i as int].to, x)));
                        assert((ready0 + grown).push((es[i as int].to, x)) =~= ready0 + grown.push(
                            (es[i as int].to, x),
                        ));
                    },
                    Ok(None) => {},
                    Err(_) => {
                        proof {
                            assert(es[i as int].fires(tests, caps));
                            lemma_none_fires(workflow@, nodes, es, tests, caps, i as nat);
                            assert(grown =~= Seq::empty());
                            assert(prior =~= ready0);
                            assert forall|j: int| 0 <= j < i implies !p(#[trigger] es[j]) by {}
                            execution_store::lemma_first_at(es, p, i as int);
                        }
                        return Some(edges[i].to.clone());
                    },
                }
            }
            i += 1;
        }
        None
    }

    /// Keep the output of a node and see which nodes become ready.
    fn complete(
        &mut self,
        drive: &mut Drive,
        workflow: &Workflow,
        node_name: &str,
        payload: &Json,
        answers: &Answers,
        t: &str,
    ) -> (r: Option<Outcome>)
        ensures
            (StepView {
                supervisor: final(self)@,
                ready: task_views(final(drive).ready@),
                outcome: outcome_view(r),
            }) == after_completion(
                old(self)@,
                task_views(old(drive).ready@),
                workflow@,
                old(drive).workflow_id,
                node_name@,
                payload@,
                answers.tests@,
                text::strs(answers.capabilities@),
                t@,
            ),
            final(drive).workflow_id == old(drive).workflow_id,
            json::nests_within(payload@, 127) ==> stored_value(json::json_text(payload@)) == payload@,
    {
        let ghost before = self@;
        let wid = ids::text_of_id(drive.workflow_id);
        let output = payload.to_text();
        self.store.complete_node(wid.as_str(), node_name, output.as_str(), t);
        assert(self@ =~= before.with_store(
            before.store.completed(wid@, node_name@, json::json_text(payload@), t@),
        ));
        match self.expand(&mut drive.ready, workflow, wid.as_str(), node_name, answers) {
            None => None,
            Some(_) => {
                let e = workflow_error("execution vanished");
                Some(self.fail_execution(wid.as_str(), &e, t))
            },
        }
    }
}

impl Supervisor {
    /// Take in the answer to a task. What comes back is the outcome, where the run
    /// is over.
    pub fn on_task(
        &mut self,
        drive: &mut Drive,
        workflow: &Workflow,
        node_name: &str,
        reply: Result<Envelope, AetherError>,
        envelope_id: u128,
        elapsed_ms: u64,
        answers: &Answers,
        now: Instant,
    ) -> (r: Option<Outcome>)
        requires
            now.usable(),
        ensures
            (StepView {
                supervisor: final(self)@,
                ready: task_views(final(drive).ready@),
                outcome: outcome_view(r),
            }) == after_task(
                old(self)@,
                task_views(old(drive).ready@),
                workflow@,
                old(drive).workflow_id,
                node_name@,
                reply_view(reply),
                envelope_id,
                elapsed_ms,
                answers.tests@,
                text::strs(answers.capabilities@),
                now,
            ),
            final(drive).workflow_id == old(drive).workflow_id,
            kept_in_full(reply_view(reply)),
    {
        let t = now.to_text();
        let wid = ids::text_of_id(drive.workflow_id);
        match reply {
            Err(e) => Some(self.fail_execution(wid.as_str(), &e, t.as_str())),
            Ok(env) => {
                if env.kind == EnvelopeKind::Error {
                    let e = AetherError::AgentFailed {
                        node: node_name.to_string(),
                        message: env.payload.to_text(),
                    };
                    return Some(self.fail_execution(wid.as_str(), &e, t.as_str()));
                }
                self.tell(
                    SupervisorEvent::TaskCompleted {
                        workflow_id: drive.workflow_id,
                        node: node_name.to_string(),
                        envelope_id,
                        elapsed_ms,
                    },
                );
                if env.kind == EnvelopeKind::Suspended {
                    match SuspendPayload::from_json(&env.payload) {
                        Err(complaint) => {
                            let mut message = text::cat("malformed Suspended payload from '", node_name);
                            message.append("': ");
                            message.append(complaint.as_str());
                            let e = AetherError::WorkflowError { message };
                            Some(self.fail_execution(wid.as_str(), &e, t.as_str()))
                        },
                        Ok(p) => if self.lacks_date(node_name, &p, now) {
                            let e = undatable_error(node_name);
                            Some(self.fail_execution(wid.as_str(), &e, t.as_str()))
                        } else {
                            self.park(drive.workflow_id, node_name, p, now);
                            None
                        },
                    }
                } else {
                    self.complete(drive, workflow, node_name, &env.payload, answers, t.as_str())
                }
            },
        }
    }

    /// Take an execution for this driver until the end of a lease.
    fn claim_or_refuse(&mut self, wid: &str, now: Instant) -> (r: Result<(), Outcome>)
        requires
            now.usable(),
        ensures
            match r {
                Ok(()) => old(self)@.store.claimable(wid@, old(self)@.driver, now.words())
                    && final(self)@ == old(self)@.held(wid@, now) && held_until(
                    final(self)@.store,
                    wid@,
                    final(self)@.driver,
                    now.lease_end(),
                ),
                Err(o) => !old(self)@.store.claimable(wid@, old(self)@.driver, now.words())
                    && final(self)@ == old(self)@ && o@ == refusal(wid@),
            },
    {
        let t = now.to_text();
        let until = (Instant { secs: now.secs + clock::LEASE_SECS, nanos: now.nanos }).to_text();
        let ghost before = self@;
        if self.store.claim_execution(wid, self.driver_id.as_str(), t.as_str(), until.as_str()) {
            assert(self@ =~= before.held(wid@, now));
            proof {
                lemma_held_until(before.store, wid@, before.driver, now.lease_end());
            }
            Ok(())
        } else {
            assert(self@ =~= before);
            let mut error = text::cat("execution '", wid);
            error.append("' is already being driven by another driver");
            let node = String::new();
            assert(node@ =~= Seq::empty());
            Err(Outcome::Failed { node, error })
        }
    }

    /// Begin a run: the execution is entered with its nodes pending, this driver
    /// holds it, and the entries are ready with the payload as their input.
    /// Refused where the execution is there already.
    pub fn start(
        &mut self,
        workflow_id: u128,
        workflow: &Workflow,
        initial_payload: &Json,
        workflow_spec: &str,
        now: Instant,
    ) -> (r: Result<Drive, Outcome>)
        requires
            now.usable(),
        ensures
            r is Ok <==> !old(self)@.store.has(ids::id_text(workflow_id)),
            r matches Ok(d) ==> {
                &&& d.workflow_id == workflow_id
                &&& task_views(d.ready@) == entry_tasks(workflow@, initial_payload@)
                &&& exists|names: Seq<Seq<char>>|
                    #![trigger names.no_duplicates()]
                    names.no_duplicates() && (forall|x: Seq<char>| #[trigger]
                        names.contains(x) <==> workflow@.names(x)) && final(self)@ == begun(
                        old(self)@,
                        workflow_id,
                        workflow@,
                        initial_payload@,
                        workflow_spec@,
                        names,
                        now,
                    )
            },
            json::nests_within(initial_payload@, 127) && r is Ok ==> json::json_parse(
                json::json_text(initial_payload@),
            ) == json::read(initial_payload@),
            r is Ok ==> held_until(
                final(self)@.store,
                ids::id_text(workflow_id),
                final(self)@.driver,
                now.lease_end(),
            ),
            r matches Err(o) ==> {
                &&& o@ == (OutcomeView::Failed {
                    node: Seq::empty(),
                    error: "workflow error: "@ + "UNIQUE constraint failed: executions.workflow_id"@,
                })
                &&& final(self)@ == old(self)@.told(
                    EventView::WorkflowStarted { workflow_id, entries: workflow@.entries },
                )
            },
    {
        let ghost before = self@;
        self.tell(
            SupervisorEvent::WorkflowStarted { workflow_id, entries: copy_texts(&workflow.entries) },
        );
        let ghost told = self@;
        let wid = ids::text_of_id(workflow_id);
        let t = now.to_text();
        let names = workflow.all_nodes();
        let payload = initial_payload.to_text();
        match self.store.create_execution(
            wid.as_str(),
            workflow_spec,
            payload.as_str(),
            &names,
            t.as_str(),
        ) {
            Err(e) => {
                assert(self@ =~= told);
                let node = String::new();
                assert(node@ =~= Seq::empty());
                return Err(Outcome::Failed { node, error: e.to_string() });
            },
            Ok(()) => {},
        }
        let ghost made = told.with_store(
            told.store.created(wid@, workflow_spec@, payload@, text::strs(names@), t@),
        );
        assert(self@ =~= made);
        proof {
            lemma_created_claimable(told.store, wid@, workflow_spec@, payload@, text::strs(names@), t@, made.driver, t@);
        }
        match self.claim_or_refuse(wid.as_str(), now) {
            Err(o) => {
                return Err(o);
            },
            Ok(()) => {},
        }
        let mut ready: Vec<(String, Json)> = Vec::new();
        let mut i: usize = 0;
        while i < workflow.entries.len()
            invariant
                i <= workflow.entries@.len(),
                ready@.len() == i,
                forall|j: int|
                    0 <= j < i ==> (#[trigger] ready@[j]).0@ == workflow@.entries[j] && ready@[j].1@
                        == initial_payload@,
            decreases workflow.entries@.len() - i,
        {
            ready.push((workflow.entries[i].clone(), initial_payload.clone()));
            i += 1;
        }
        assert(task_views(ready@) =~= entry_tasks(workflow@, initial_payload@));
        assert(text::strs(names@).no_duplicates());
        Ok(Drive { workflow_id, ready })
    }
}

/// Whether `driver` holds the execution `wid` until `end`: another driver may take it
/// at the moments after `end`, and at no others.
pub open spec fn held_until(v: StoreView, wid: Seq<char>, driver: Seq<char>, end: Instant) -> bool {
    forall|other: Seq<char>, t: Instant|
        other != driver && end.dated() && t.dated() ==> (#[trigger] v.claimable(wid, other, t.words())
            <==> end.earlier(t))
}

proof fn lemma_held_until(v: StoreView, wid: Seq<char>, driver: Seq<char>, end: Instant)
    requires
        v.row(wid) is Some,
        end.sorts_as(end.words()),
    ensures
        held_until(v.claimed(wid, driver, end.words()), wid, driver, end),
{
    execution_store::lemma_row_with_row(
        v,
        wid,
        wid,
        |r: execution_store::RowView|
            execution_store::RowView {
                claimed_by: Some(driver),
                lease_expires_at: Some(end.words()),
                ..r
            },
    );
}

proof fn lemma_renewed_until(v: StoreView, wid: Seq<char>, driver: Seq<char>, end: Instant)
    requires
        v.row(wid) matches Some(row) && row.claimed_by == Some(driver),
        end.sorts_as(end.words()),
    ensures
        held_until(v.renewed(wid, driver, end.words()), wid, driver, end),
{
    execution_store::lemma_row_with_row(
        v,
        wid,
        wid,
        |r: execution_store::RowView|
            if r.claimed_by == Some(driver) {
                execution_store::RowView { lease_expires_at: Some(end.words()), ..r }
            } else {
                r
            },
    );
}

/// The answer to a driver that may not have an execution.
pub open spec fn refusal(wid: Seq<char>) -> OutcomeView {
    OutcomeView::Failed {
        node: Seq::empty(),
        error: "execution '"@ + wid + "' is already being driven by another driver"@,
    }
}

/// The entries of a workflow, each with the payload of the run.
pub open spec fn entry_tasks(w: WorkflowView, payload: JsonView) -> Seq<(Seq<char>, JsonView)> {
    Seq::new(w.entries.len(), |i: int| (w.entries[i], payload))
}

/// After a run has begun.
pub open spec fn begun(
    s: SupervisorView,
    id: u128,
    w: WorkflowView,
    payload: JsonView,
    spec_text: Seq<char>,
    names: Seq<Seq<char>>,
    now: Instant,
) -> SupervisorView {
    let wid = ids::id_text(id);
    s.told(EventView::WorkflowStarted { workflow_id: id, entries: w.entries }).with_store(
        s.store.created(wid, spec_text, json::json_text(payload), names, now.words()),
    ).held(wid, now)
}

impl SupervisorView {
    /// With the execution `wid` held by this driver until the end of a lease.
    pub open spec fn held(self, wid: Seq<char>, now: Instant) -> SupervisorView {
        self.with_store(self.store.claimed(wid, self.driver, now.lease_end().words()))
    }

    /// With this driver's hold on the execution `wid` given up.
    pub open spec fn released(self, wid: Seq<char>) -> SupervisorView {
        self.with_store(self.store.released(wid, self.driver))
    }
}

/// A new execution is free to be taken.
proof fn lemma_created_claimable(
    v: StoreView,
    w: Seq<char>,
    spec_text: Seq<char>,
    payload: Seq<char>,
    names: Seq<Seq<char>>,
    t: Seq<char>,
    driver: Seq<char>,
    now: Seq<char>,
)
    requires
        !v.has(w),
    ensures
        v.created(w, spec_text, payload, names, t).claimable(w, driver, now),
{
    let c = v.created(w, spec_text, payload, names, t);
    let p = |r: execution_store::RowView| r.record.workflow_id == w;
    assert forall|i: int| 0 <= i < v.executions.len() implies !p(#[trigger] c.executions[i]) by {
        assert(c.executions[i] == v.executions[i]);
    }
    execution_store::lemma_first_at(c.executions, p, v.executions.len() as int);
}

/// The JSON form in which a workflow is kept with its execution: the entries, and
/// the ends of the edges. Conditions are not kept.
pub open spec fn workflow_json(w: WorkflowView) -> JsonView {
    JsonView::Object(
        map![
            "entries"@ => JsonView::List(Seq::new(w.entries.len(), |i: int| JsonView::Text(w.entries[i]))),
            "edges"@ => JsonView::List(
                Seq::new(
                    w.edges.len(),
                    |i: int|
                        JsonView::Object(
                            map![
                                "from"@ => JsonView::Text(w.edges[i].from),
                                "to"@ => JsonView::Text(w.edges[i].to),
                            ],
                        ),
                ),
            ),
        ],
    )
}

/// A list of strings as a JSON value.
pub fn text_list(v: &Vec<String>) -> (r: Json)
    ensures
        r@ == JsonView::List(Seq::new(v@.len(), |i: int| JsonView::Text(text::strs(v@)[i]))),
{
    let mut out: Vec<Json> = Vec::new();
    let mut i: usize = 0;
    while i < v.len()
        invariant
            i <= v@.len(),
            out@.len() == i,
            forall|j: int| 0 <= j < i ==> (#[trigger] out@[j])@ == JsonView::Text(v@[j]@),
        decreases v@.len() - i,
    {
        out.push(Json::text(v[i].as_str()));
        i += 1;
    }
    let r = Json::List(out);
    assert(r@->List_0 =~= Seq::new(v@.len(), |i: int| JsonView::Text(text::strs(v@)[i])));
    r
}

/// The text in which a workflow is kept with its execution.
pub fn serialize_workflow_spec(workflow: &Workflow) -> (r: String)
    ensures
        r@ == json::json_text(workflow_json(workflow@)),
{
    let mut edges: Vec<Json> = Vec::new();
    let mut i: usize = 0;
    while i < workflow.edges.len()
        invariant
            i <= workflow.edges@.len(),
            edges@.len() == i,
            forall|j: int|
                0 <= j < i ==> (#[trigger] edges@[j])@ == JsonView::Object(
                    map![
                        "from"@ => JsonView::Text(workflow@.edges[j].from),
                        "to"@ => JsonView::Text(workflow@.edges[j].to),
                    ],
                ),
        decreases workflow.edges@.len() - i,
    {
        let mut m: TextMap<Json> = TextMap::new();
        m.insert("from".to_string(), Json::text(workflow.edges[i].from.as_str()));
        m.insert("to".to_string(), Json::text(workflow.edges[i].to.as_str()));
        let e = Json::Object(m);
        assert(e@->Object_0 =~= map![
            "from"@ => JsonView::Text(workflow@.edges[i as int].from),
            "to"@ => JsonView::Text(workflow@.edges[i as int].to),
        ]);
        edges.push(e);
        i += 1;
    }
    let list = Json::List(edges);
    assert(list@->List_0 =~= Seq::new(
        workflow@.edges.len(),
        |i: int|
            JsonView::Object(
                map![
                    "from"@ => JsonView::Text(workflow@.edges[i].from),
                    "to"@ => JsonView::Text(workflow@.edges[i].to),
                ],
            ),
    ));
    let names = text_list(&workflow.entries);
    assert(names@->List_0 =~= Seq::new(workflow@.entries.len(), |i: int| JsonView::Text(workflow@.entries[i])));
    let mut m: TextMap<Json> = TextMap::new();
    m.insert("entries".to_string(), names);
    m.insert("edges".to_string(), list);
    let r = Json::Object(m);
    assert(r@->Object_0 =~= workflow_json(workflow@)->Object_0);
    r.to_text()
}

/// The labels that an agent gets with its task: those of its node, and the
/// execution and the node.
pub open spec fn task_labels(labels: Map<Seq<char>, Seq<char>>, wid: Seq<char>, node: Seq<char>) -> Map<
    Seq<char>,
    Seq<char>,
> {
    labels.insert("trace_id"@, wid).insert("workflow_id"@, wid).insert("node"@, node)
}

/// What an attempt at a task leads to.
#[derive(Debug, PartialEq)]
pub enum Attempt {
    /// The task has its answer, or its error.
    Settled(Result<Envelope, AetherError>),
    /// Try the same agent again, after a restart where `restart` says so.
    Retry { restart: bool },
    /// Hand the task to another agent, whose answer settles it.
    Fallback { node: AgentNode },
}

/// An `Attempt` as a mathematical value.
pub enum AttemptView {
    Settled(Result<EnvelopeView, ErrorView>),
    Retry { restart: bool },
    Fallback { node: AgentNodeView },
}

impl View for Attempt {
    type V = AttemptView;

    open spec fn view(&self) -> AttemptView {
        match *self {
            Attempt::Settled(r) => AttemptView::Settled(reply_view(r)),
            Attempt::Retry { restart } => AttemptView::Retry { restart },
            Attempt::Fallback { node } => AttemptView::Fallback { node: node@ },
        }
    }
}

/// Why an attempt has failed, if it has: the payload of an error answer, or the
/// words of an error.
pub open spec fn attempt_failure(reply: Result<EnvelopeView, ErrorView>) -> Option<Seq<char>> {
    match reply {
        Ok(env) => if env.kind == EnvelopeKind::Error {
            Some(json::json_text(env.payload))
        } else {
            None
        },
        Err(e) => Some(e.words()),
    }
}

/// What the failure policy of a node makes of an attempt, counted from nought:
/// another try while retries are left, then the fallback where the registry has
/// it, then the failure.
pub open spec fn judged(
    agents: Map<Seq<char>, AgentNodeView>,
    node: AgentNodeView,
    attempt: nat,
    reply: Result<EnvelopeView, ErrorView>,
) -> AttemptView {
    match attempt_failure(reply) {
        None => AttemptView::Settled(reply),
        Some(message) => if attempt < node.failure.retries {
            AttemptView::Retry { restart: node.failure.restart_on_failure }
        } else if node.failure.fallback matches Some(f) && agents.dom().contains(f) {
            AttemptView::Fallback { node: agents[node.failure.fallback->0] }
        } else {
            AttemptView::Settled(
                match reply {
                    Ok(_) => Err(ErrorView::AgentFailed { node: node.name, message }),
                    Err(e) => Err(e),
                },
            )
        },
    }
}

/// What is told of an attempt.
pub open spec fn attempt_events(
    id: u128,
    node: AgentNodeView,
    attempt: usize,
    reply: Result<EnvelopeView, ErrorView>,
) -> Seq<EventView> {
    match attempt_failure(reply) {
        None => Seq::empty(),
        Some(message) => {
            let failed = EventView::TaskFailed {
                workflow_id: id,
                node: node.name,
                error: message,
                attempt: (attempt + 1) as usize,
            };
            if attempt < node.failure.retries && node.failure.restart_on_failure {
                seq![failed, EventView::AgentRestarted { node: node.name, reason: message }]
            } else {
                seq![failed]
            }
        },
    }
}

impl Supervisor {
    /// The next nodes to hand out, and this driver's hold on the execution put
    /// off; none where no node is ready.
    pub fn next_level(&mut self, drive: &mut Drive, now: Instant) -> (r: Option<Vec<(String, Json)>>)
        requires
            now.usable(),
        ensures
            r is None <==> old(drive).ready@.len() == 0,
            r matches Some(tasks) ==> {
                &&& task_views(tasks@) == task_views(old(drive).ready@)
                &&& final(self)@ == old(self)@.with_store(
                    old(self)@.store.renewed(
                        ids::id_text(old(drive).workflow_id),
                        old(self)@.driver,
                        now.lease_end().words(),
                    ),
                )
            },
            r is Some && (old(self)@.store.row(ids::id_text(old(drive).workflow_id)) matches Some(row)
                && row.claimed_by == Some(old(self)@.driver)) ==> held_until(
                final(self)@.store,
                ids::id_text(old(drive).workflow_id),
                old(self)@.driver,
                now.lease_end(),
            ),
            r is None ==> final(self)@ == old(self)@,
            final(drive).ready@.len() == 0,
            final(drive).workflow_id == old(drive).workflow_id,
    {
        if drive.ready.len() == 0 {
            return None;
        }
        let wid = ids::text_of_id(drive.workflow_id);
        let until = (Instant { secs: now.secs + clock::LEASE_SECS, nanos: now.nanos }).to_text();
        let ghost before = self@;
        self.store.renew_lease(wid.as_str(), self.driver_id.as_str(), until.as_str());
        proof {
            if before.store.row(wid@) matches Some(row) && row.claimed_by == Some(before.driver) {
                lemma_renewed_until(before.store, wid@, before.driver, now.lease_end());
            }
        }
        let mut tasks: Vec<(String, Json)> = Vec::new();
        std::mem::swap(&mut tasks, &mut drive.ready);
        Some(tasks)
    }

    /// Hand out a node: its row is running, and the message for its agent is made.
    pub fn dispatch(
        &mut self,
        workflow_id: u128,
        node_name: &str,
        payload: Json,
        envelope_id: u128,
        now: Instant,
    ) -> (r: Result<(AgentNode, Envelope), AetherError>)
        requires
            now.usable(),
        ensures
            r is Ok <==> old(self)@.agents.dom().contains(node_name@),
            r matches Ok((node, envelope)) ==> {
                &&& node@ == old(self)@.agents[node_name@]
                &&& node@.name == node_name@
                &&& envelope@ == (EnvelopeView {
                    id: envelope_id,
                    kind: EnvelopeKind::Invoke,
                    payload: payload@,
                    metadata: task_labels(node@.metadata, ids::id_text(workflow_id), node_name@),
                })
                &&& final(self)@ == old(self)@.with_store(
                    old(self)@.store.started(ids::id_text(workflow_id), node_name@, now.words()),
                ).told(EventView::TaskDispatched { workflow_id, node: node_name@, envelope_id })
            },
            r matches Err(e) ==> {
                &&& e@ == (ErrorView::RegistryError {
                    message: "node '"@ + node_name@ + "' not found at dispatch time"@,
                })
                &&& final(self)@ == old(self)@
            },
    {
        let node = match self.registry.get(node_name) {
            Some(n) => n,
            None => {
                let mut message = text::cat("node '", node_name);
                message.append("' not found at dispatch time");
                return Err(AetherError::RegistryError { message });
            },
        };
        let wid = ids::text_of_id(workflow_id);
        let t = now.to_text();
        self.store.mark_node_running(wid.as_str(), node_name, t.as_str());
        let mut metadata = copy_labels(&node.metadata);
        metadata.insert("trace_id".to_string(), wid.clone());
        metadata.insert("workflow_id".to_string(), wid);
        metadata.insert("node".to_string(), node_name.to_string());
        self.tell(
            SupervisorEvent::TaskDispatched {
                workflow_id,
                node: node_name.to_string(),
                envelope_id,
            },
        );
        let envelope = Envelope { id: envelope_id, kind: EnvelopeKind::Invoke, payload, metadata };
        assert(envelope@.metadata =~= task_labels(node@.metadata, ids::id_text(workflow_id), node_name@));
        Ok((node, envelope))
    }

    /// Apply the failure policy of `node` to the attempt that has just ended, the
    /// first being attempt nought.
    pub fn judge_attempt(
        &mut self,
        workflow_id: u128,
        node: &AgentNode,
        attempt: usize,
        reply: Result<Envelope, AetherError>,
    ) -> (r: Attempt)
        requires
            attempt < usize::MAX,
        ensures
            r@ == judged(old(self)@.agents, node@, attempt as nat, reply_view(reply)),
            r@ matches AttemptView::Fallback { node: other } ==> node@.failure.fallback == Some(other.name),
            final(self)@ == (SupervisorView {
                events: old(self)@.events + attempt_events(workflow_id, node@, attempt, reply_view(reply)),
                ..old(self)@
            }),
    {
        let ghost before = self@;
        let message = match &reply {
            Ok(env) => if env.kind == EnvelopeKind::Error {
                env.payload.to_text()
            } else {
                assert(self@.events =~= before.events + attempt_events(workflow_id, node@, attempt, reply_view(reply)));
                return Attempt::Settled(reply);
            },
            Err(e) => e.to_string(),
        };
        self.tell(
            SupervisorEvent::TaskFailed {
                workflow_id,
                node: node.name.clone(),
                error: message.clone(),
                attempt: attempt + 1,
            },
        );
        if attempt < node.failure.retries {
            if node.failure.restart_on_failure {
                self.tell(
                    SupervisorEvent::AgentRestarted { node: node.name.clone(), reason: message },
                );
            }
            assert(self@.events =~= before.events + attempt_events(workflow_id, node@, attempt, reply_view(reply)));
            return Attempt::Retry { restart: node.failure.restart_on_failure };
        }
        assert(self@.events =~= before.events + attempt_events(workflow_id, node@, attempt, reply_view(reply)));
        if let Some(name) = &node.failure.fallback {
            if let Some(other) = self.registry.get(name.as_str()) {
                return Attempt::Fallback { node: other };
            }
        }
        match reply {
            Ok(_) => Attempt::Settled(
                Err(AetherError::AgentFailed { node: node.name.clone(), message }),
            ),
            Err(e) => Attempt::Settled(Err(e)),
        }
    }
}

/// Whether `id` is the source of an edge.
pub open spec fn is_source(w: WorkflowView, id: Seq<char>) -> bool {
    exists|i: int| 0 <= i < w.edges.len() && (#[trigger] w.edges[i]).from == id
}

/// The outputs of the nodes that no edge leaves, each under the name of its node.
pub open spec fn terminal_outputs(w: WorkflowView, nodes: Seq<NodeView>) -> Map<Seq<char>, JsonView>
    decreases nodes.len(),
{
    if nodes.len() == 0 {
        Map::empty()
    } else {
        let prior = terminal_outputs(w, nodes.drop_last());
        let n = nodes.last();
        if !is_source(w, n.node_id) && n.output is Some {
            prior.insert(n.node_id, stored_value(n.output->0))
        } else {
            prior
        }
    }
}

/// Whether a node waits for a decision.
pub open spec fn some_suspended(nodes: Seq<NodeView>) -> bool {
    exists|i: int| 0 <= i < nodes.len() && (#[trigger] nodes[i]).status == NodeStatus::Suspended
}

/// After a run with no node left to hand out: it is suspended where a node waits
/// for a decision, and has succeeded otherwise.
pub open spec fn finalized(
    s: SupervisorView,
    w: WorkflowView,
    id: u128,
    t: Seq<char>,
) -> (SupervisorView, Result<OutcomeView, ErrorView>) {
    let wid = ids::id_text(id);
    let nodes = s.store.nodes_of(wid);
    if s.store.row(wid) is None {
        (s, Err(vanished()))
    } else if some_suspended(nodes) {
        (
            s.with_store(s.store.finished(wid, ExecutionStatus::Suspended, None, None, t)),
            Ok(OutcomeView::Suspended { workflow_id: id }),
        )
    } else {
        let result = JsonView::Object(terminal_outputs(w, nodes));
        (
            s.with_store(
                s.store.finished(wid, ExecutionStatus::Succeeded, Some(json::json_text(result)), None, t),
            ),
            Ok(OutcomeView::Success(result)),
        )
    }
}

/// A result of `finalize` as a mathematical value.
pub open spec fn final_view(r: Result<Outcome, AetherError>) -> Result<OutcomeView, ErrorView> {
    match r {
        Ok(o) => Ok(o@),
        Err(e) => Err(e@),
    }
}

/// The outcome of a run that came to `r`.
pub open spec fn settled_outcome(r: Result<OutcomeView, ErrorView>) -> OutcomeView {
    match r {
        Ok(o) => o,
        Err(e) => OutcomeView::Failed { node: Seq::empty(), error: e.words() },
    }
}

fn has_suspended(nodes: &Vec<ExecutionNodeRecord>) -> (r: bool)
    ensures
        r == some_suspended(execution_store::node_views(nodes@)),
{
    let ghost s = execution_store::node_views(nodes@);
    let mut i: usize = 0;
    while i < nodes.len()
        invariant
            i <= nodes@.len(),
            s == execution_store::node_views(nodes@),
            forall|j: int| 0 <= j < i ==> (#[trigger] s[j]).status != NodeStatus::Suspended,
        decreases nodes@.len() - i,
    {
        assert(s[i as int] == nodes@[i as int]@);
        if nodes[i].status == NodeStatus::Suspended {
            return true;
        }
        i += 1;
    }
    false
}

fn leaves(workflow: &Workflow, id: &str) -> (r: bool)
    ensures
        r == is_source(workflow@, id@),
{
    let mut i: usize = 0;
    while i < workflow.edges.len()
        invariant
            i <= workflow.edges@.len(),
            forall|j: int| 0 <= j < i ==> (#[trigger] workflow@.edges[j]).from != id@,
        decreases workflow.edges@.len() - i,
    {
        assert(workflow@.edges[i as int] == workflow.edges@[i as int]@);
        if text::same(workflow.edges[i].from.as_str(), id) {
            return true;
        }
        i += 1;
    }
    false
}

/// See `terminal_outputs`.
fn collect_terminals(workflow: &Workflow, nodes: &Vec<ExecutionNodeRecord>) -> (r: Json)
    ensures
        r@ == JsonView::Object(terminal_outputs(workflow@, execution_store::node_views(nodes@))),
{
    let ghost s = execution_store::node_views(nodes@);
    let mut m: TextMap<Json> = TextMap::new();
    let mut i: usize = 0;
    assert(json::json_view(Json::Object(m))->Object_0 =~= terminal_outputs(workflow@, s.take(0)));
    while i < nodes.len()
        invariant
            i <= nodes@.len(),
            s == execution_store::node_views(nodes@),
            json::json_view(Json::Object(m)) == JsonView::Object(
                terminal_outputs(workflow@, s.take(i as int)),
            ),
        decreases nodes@.len() - i,
    {
        let ghost prior = m;
        proof {
            assert(s[i as int] == nodes@[i as int]@);
            assert(s.take(i + 1).drop_last() =~= s.take(i as int));
        }
        if let Some(output) = &nodes[i].output {
            if !leaves(workflow, nodes[i].node_id.as_str()) {
                let v = read_stored(output.as_str());
                let ghost x = v@;
                m.insert(nodes[i].node_id.clone(), v);
                assert(json::json_view(Json::Object(m))->Object_0 =~= json::json_view(Json::Object(prior))->Object_0.insert(
                    s[i as int].node_id,
                    x,
                ));
            }
        }
        i += 1;
    }
    assert(s.take(s.len() as int) =~= s);
    Json::Object(m)
}

impl Supervisor {
    /// Close a run that has no node left to hand out.
    pub fn finalize(&mut self, workflow: &Workflow, workflow_id: u128, now: Instant) -> (r: Result<
        Outcome,
        AetherError,
    >)
        requires
            now.usable(),
        ensures
            (final(self)@, final_view(r)) == finalized(old(self)@, workflow@, workflow_id, now.words()),
    {
        let wid = ids::text_of_id(workflow_id);
        let t = now.to_text();
        let nodes = match self.store.load_execution(wid.as_str()) {
            None => return Err(workflow_error("execution vanished")),
            Some((_, nodes)) => nodes,
        };
        if has_suspended(&nodes) {
            self.store.finish_execution(wid.as_str(), ExecutionStatus::Suspended, &None, &None, t.as_str());
            return Ok(Outcome::Suspended { workflow_id });
        }
        let result = collect_terminals(workflow, &nodes);
        let stored = Some(result.to_text());
        self.store.finish_execution(wid.as_str(), ExecutionStatus::Succeeded, &stored, &None, t.as_str());
        Ok(Outcome::Success(result))
    }

    /// End a run: give up this driver's hold and tell the outcome.
    pub fn conclude(&mut self, workflow_id: u128, result: Result<Outcome, AetherError>) -> (r: Outcome)
        ensures
            r@ == settled_outcome(final_view(result)),
            final(self)@ == old(self)@.released(ids::id_text(workflow_id)).told(
                EventView::WorkflowFinished {
                    workflow_id,
                    result: settled_outcome(final_view(result)),
                },
            ),
    {
        let outcome = match result {
            Ok(o) => o,
            Err(e) => {
                let node = String::new();
                assert(node@ =~= Seq::empty());
                Outcome::Failed { node, error: e.to_string() }
            },
        };
        self.release(workflow_id);
        self.tell(SupervisorEvent::WorkflowFinished { workflow_id, result: outcome.clone() });
        outcome
    }

    fn release(&mut self, workflow_id: u128)
        ensures
            final(self)@ == old(self)@.released(ids::id_text(workflow_id)),
    {
        let wid = ids::text_of_id(workflow_id);
        self.store.release_execution(wid.as_str(), self.driver_id.as_str());
    }
}

/// A failure at a node, in the given words.
pub open spec fn failed_at(node: Seq<char>, error: Seq<char>) -> OutcomeView {
    OutcomeView::Failed { node, error }
}

/// What a decision for a parked node comes up against: the ids that tie the node
/// to its agent, or the reason why the decision cannot be delivered.
pub open spec fn resumable(s: SupervisorView, wid: Seq<char>, node: Seq<char>) -> Result<
    (Seq<char>, Seq<char>),
    Seq<char>,
> {
    match if s.store.row(wid) is Some {
        node_in(s.store.nodes_of(wid), node)
    } else {
        None
    } {
        None => Err("unknown node"@),
        Some(n) => if n.status != NodeStatus::Suspended {
            Err("node is not suspended"@)
        } else {
            match (n.session_id, n.approval_id) {
                (Some(session_id), Some(approval_id)) => if s.agents.dom().contains(node) {
                    Ok((session_id, approval_id))
                } else {
                    Err("node not in registry"@)
                },
                _ => Err("missing resume correlation"@),
            }
        },
    }
}

/// After the agent has answered a decision.
pub open spec fn after_resume(
    s: SupervisorView,
    w: WorkflowView,
    id: u128,
    node: Seq<char>,
    reply: Result<EnvelopeView, ErrorView>,
    tests: Seq<bool>,
    capabilities: Seq<Seq<char>>,
    now: Instant,
) -> StepView {
    let wid = ids::id_text(id);
    let t = now.words();
    match reply {
        Err(e) => StepView {
            supervisor: s.with_store(
                s.store.finished(wid, ExecutionStatus::Failed, None, Some(e.words()), t),
            ).released(wid),
            ready: Seq::empty(),
            outcome: Some(failed_at(node, e.words())),
        },
        Ok(env) => if env.kind == EnvelopeKind::Suspended {
            match resume::suspend_of(env.payload) {
                Err(complaint) => StepView {
                    supervisor: s.released(wid),
                    ready: Seq::empty(),
                    outcome: Some(failed_at(node, complaint)),
                },
                Ok(p) => if undatable(s.agents, node, p, now) {
                    StepView {
                        supervisor: s.with_store(
                            s.store.finished(
                                wid,
                                ExecutionStatus::Failed,
                                None,
                                Some(no_date(node).words()),
                                t,
                            ),
                        ).released(wid),
                        ready: Seq::empty(),
                        outcome: Some(failed_at(node, no_date(node).words())),
                    }
                } else {
                    let parked = s.parked(id, node, p, now);
                    StepView {
                        supervisor: parked.with_store(
                            parked.store.finished(wid, ExecutionStatus::Suspended, None, None, t),
                        ).released(wid),
                        ready: Seq::empty(),
                        outcome: Some(OutcomeView::Suspended { workflow_id: id }),
                    }
                },
            }
        } else if env.kind == EnvelopeKind::Error {
            StepView {
                supervisor: s.with_store(
                    s.store.finished(
                        wid,
                        ExecutionStatus::Failed,
                        None,
                        Some(json::json_text(env.payload)),
                        t,
                    ),
                ).released(wid),
                ready: Seq::empty(),
                outcome: Some(failed_at(node, json::json_text(env.payload))),
            }
        } else {
            let done = s.with_store(
                s.store.completed(wid, node, json::json_text(env.payload), t).finished(
                    wid,
                    ExecutionStatus::Running,
                    None,
                    None,
                    t,
                ),
            );
            let edges = w.outgoing(node);
            if done.store.row(wid) is None && some_fires(edges, tests, capabilities) {
                StepView {
                    supervisor: done.with_store(
                        done.store.finished(wid, ExecutionStatus::Failed, None, Some(vanished().words()), t),
                    ).released(wid),
                    ready: Seq::empty(),
                    outcome: Some(
                        failed_at(first_fired(edges, tests, capabilities).to, vanished().words()),
                    ),
                }
            } else {
                StepView {
                    supervisor: done,
                    ready: newly_ready(
                        w,
                        done.store.nodes_of(wid),
                        edges,
                        tests,
                        capabilities,
                        edges.len(),
                    ),
                    outcome: None,
                }
            }
        },
    }
}

/// The first of the edges that is followed.
pub open spec fn first_fired(
    edges: Seq<EdgeView>,
    tests: Seq<bool>,
    capabilities: Seq<Seq<char>>,
) -> EdgeView {
    execution_store::first(edges, |e: EdgeView| e.fires(tests, capabilities))->0
}

/// What follows the answer to a decision.
#[derive(Debug, PartialEq)]
pub enum Resumed {
    /// The execution has come to rest.
    Over(Outcome),
    /// The run goes on.
    Driving(Drive),
}

impl Supervisor {
    /// Take an execution in order to deliver a decision to a parked node. The
    /// agent and the request come back, or the reason for a refusal.
    pub fn begin_resume(
        &mut self,
        workflow_id: u128,
        node_id: &str,
        decision: ApprovalDecision,
        now: Instant,
    ) -> (r: Result<(AgentNode, ResumeRequest), Outcome>)
        requires
            now.usable(),
        ensures
            ({
                let wid = ids::id_text(workflow_id);
                let s = old(self)@;
                if !s.store.claimable(wid, s.driver, now.words()) {
                    &&& r matches Err(o) && o@ == refusal(wid)
                    &&& final(self)@ == s
                } else {
                    match resumable(s.held(wid, now), wid, node_id@) {
                        Err(reason) => {
                            &&& r matches Err(o) && o@ == failed_at(node_id@, reason)
                            &&& final(self)@ == s.held(wid, now).released(wid)
                        },
                        Ok((session_id, approval_id)) => {
                            &&& r matches Ok((node, q)) && node@ == s.agents[node_id@]
                                && q@.session_id == session_id && q@.approval_id == approval_id
                                && q@.decision == decision@
                            &&& final(self)@ == s.held(wid, now)
                            &&& held_until(final(self)@.store, wid, s.driver, now.lease_end())
                        },
                    }
                }
            }),
    {
        let wid = ids::text_of_id(workflow_id);
        match self.claim_or_refuse(wid.as_str(), now) {
            Err(o) => return Err(o),
            Ok(()) => {},
        }
        let found = match self.store.load_execution(wid.as_str()) {
            None => None,
            Some((_, nodes)) => match find_node(&nodes, node_id) {
                Some(n) => Some(n.clone()),
                None => None,
            },
        };
        let reason = match found {
            None => "unknown node",
            Some(n) => if n.status != NodeStatus::Suspended {
                "node is not suspended"
            } else {
                match (n.session_id, n.approval_id) {
                    (Some(session_id), Some(approval_id)) => match self.registry.get(node_id) {
                        Some(node) => {
                            return Ok((node, ResumeRequest { session_id, approval_id, decision }));
                        },
                        None => "node not in registry",
                    },
                    _ => "missing resume correlation",
                }
            },
        };
        self.release(workflow_id);
        Err(Outcome::Failed { node: node_id.to_string(), error: reason.to_string() })
    }
}

impl Supervisor {
    /// Take in the answer of an agent to a decision.
    pub fn on_resumed(
        &mut self,
        workflow_id: u128,
        workflow: &Workflow,
        node_id: &str,
        reply: Result<Envelope, AetherError>,
        answers: &Answers,
        now: Instant,
    ) -> (r: Resumed)
        requires
            now.usable(),
        ensures
            ({
                let step = after_resume(
                    old(self)@,
                    workflow@,
                    workflow_id,
                    node_id@,
                    reply_view(reply),
                    answers.tests@,
                    text::strs(answers.capabilities@),
                    now,
                );
                &&& final(self)@ == step.supervisor
                &&& match r {
                    Resumed::Over(o) => step.outcome == Some(o@),
                    Resumed::Driving(d) => step.outcome is None && d.workflow_id == workflow_id
                        && task_views(d.ready@) == step.ready,
                }
            }),
            kept_in_full(reply_view(reply)),
    {
        let wid = ids::text_of_id(workflow_id);
        let t = now.to_text();
        let env = match reply {
            Ok(env) => env,
            Err(e) => {
                let error = Some(e.to_string());
                self.store.finish_execution(wid.as_str(), ExecutionStatus::Failed, &None, &error, t.as_str());
                self.release(workflow_id);
                return Resumed::Over(Outcome::Failed { node: node_id.to_string(), error: e.to_string() });
            },
        };
        if env.kind == EnvelopeKind::Suspended {
            match SuspendPayload::from_json(&env.payload) {
                Err(complaint) => {
                    self.release(workflow_id);
                    return Resumed::Over(Outcome::Failed { node: node_id.to_string(), error: complaint });
                },
                Ok(p) => {
                    if self.lacks_date(node_id, &p, now) {
                        let e = undatable_error(node_id);
                        let error = Some(e.to_string());
                        self.store.finish_execution(wid.as_str(), ExecutionStatus::Failed, &None, &error, t.as_str());
                        self.release(workflow_id);
                        return Resumed::Over(
                            Outcome::Failed { node: node_id.to_string(), error: e.to_string() },
                        );
                    }
                    self.park(workflow_id, node_id, p, now);
                    self.store.finish_execution(wid.as_str(), ExecutionStatus::Suspended, &None, &None, t.as_str());
                    self.release(workflow_id);
                    return Resumed::Over(Outcome::Suspended { workflow_id });
                },
            }
        }
        if env.kind == EnvelopeKind::Error {
            let error = Some(env.payload.to_text());
            self.store.finish_execution(wid.as_str(), ExecutionStatus::Failed, &None, &error, t.as_str());
            self.release(workflow_id);
            return Resumed::Over(
                Outcome::Failed { node: node_id.to_string(), error: env.payload.to_text() },
            );
        }
        let output = env.payload.to_text();
        self.store.complete_node(wid.as_str(), node_id, output.as_str(), t.as_str());
        self.store.finish_execution(wid.as_str(), ExecutionStatus::Running, &None, &None, t.as_str());
        let mut ready: Vec<(String, Json)> = Vec::new();
        assert(task_views(ready@) =~= Seq::empty());
        match self.expand(&mut ready, workflow, wid.as_str(), node_id, answers) {
            None => {
                proof {
                    let edges = workflow@.outgoing(node_id@);
                    let grown = newly_ready(
                        workflow@,
                        self@.store.nodes_of(wid@),
                        edges,
                        answers.tests@,
                        text::strs(answers.capabilities@),
                        edges.len(),
                    );
                    assert(Seq::<(Seq<char>, JsonView)>::empty() + grown =~= grown);
                }
                Resumed::Driving(Drive { workflow_id, ready })
            },
            Some(to) => {
                let e = workflow_error("execution vanished");
                let error = Some(e.to_string());
                self.store.finish_execution(wid.as_str(), ExecutionStatus::Failed, &None, &error, t.as_str());
                self.release(workflow_id);
                Resumed::Over(Outcome::Failed { node: to, error: e.to_string() })
            },
        }
    }

    /// Take an execution that has no driver and find the nodes to hand out again:
    /// those that are pending or were running, and all of whose upstream nodes are
    /// done. A node that is done is not run again, and a parked node stays parked.
    pub fn begin_recover(&mut self, workflow_id: u128, workflow: &Workflow, now: Instant) -> (r: Result<
        Drive,
        Outcome,
    >)
        requires
            now.usable(),
        ensures
            ({
                let wid = ids::id_text(workflow_id);
                let s = old(self)@;
                if !s.store.claimable(wid, s.driver, now.words()) {
                    &&& r matches Err(o) && o@ == refusal(wid)
                    &&& final(self)@ == s
                } else {
                    &&& r matches Ok(d) && d.workflow_id == workflow_id && task_views(d.ready@)
                        == recovered_tasks(workflow@, s.held(wid, now).store, wid)
                    &&& final(self)@ == s.held(wid, now).with_store(
                        s.held(wid, now).store.finished(
                            wid,
                            ExecutionStatus::Running,
                            None,
                            None,
                            now.words(),
                        ),
                    )
                    &&& held_until(final(self)@.store, wid, s.driver, now.lease_end())
                }
            }),
    {
        let wid = ids::text_of_id(workflow_id);
        let t = now.to_text();
        let ghost before = self@;
        match self.claim_or_refuse(wid.as_str(), now) {
            Err(o) => return Err(o),
            Ok(()) => {},
        }
        let ghost held = self@;
        proof {
            lemma_claimed_row(before.store, wid@, before.driver, now.lease_end().words());
        }
        let (record, nodes) = match self.store.load_execution(wid.as_str()) {
            Some(found) => found,
            None => {
                self.release(workflow_id);
                let node = String::new();
                return Err(Outcome::Failed { node, error: "no such execution".to_string() });
            },
        };
        let initial = read_stored(record.initial_payload.as_str());
        let ghost ns = held.store.nodes_of(wid@);
        let mut ready: Vec<(String, Json)> = Vec::new();
        let mut i: usize = 0;
        assert(task_views(ready@) =~= recovered_upto(workflow@, ns, initial@, 0));
        assert(execution_store::node_views(nodes@).len() == nodes@.len());
        while i < nodes.len()
            invariant
                i <= nodes@.len(),
                execution_store::node_views(nodes@) == ns,
                task_views(ready@) == recovered_upto(workflow@, ns, initial@, i as nat),
            decreases nodes@.len() - i,
        {
            assert(ns[i as int] == nodes@[i as int]@);
            let ghost prior = task_views(ready@);
            let status = nodes[i].status;
            let id = nodes[i].node_id.as_str();
            if (status == NodeStatus::Pending || status == NodeStatus::Running) && is_unblocked(
                workflow,
                &nodes,
                id,
            ) {
                let deps = list_upstream(workflow, id);
                assert(text::strs(deps@).len() == deps@.len());
                let input = if deps.len() == 0 {
                    initial.clone()
                } else {
                    gather(workflow, &nodes, id)
                };
                let ghost x = input@;
                ready.push((nodes[i].node_id.clone(), input));
                assert(task_views(ready@) =~= prior.push((ns[i as int].node_id, x)));
            }
            i += 1;
        }
        self.store.finish_execution(wid.as_str(), ExecutionStatus::Running, &None, &None, t.as_str());
        proof {
            lemma_finish_keeps_hold(held.store, wid@, ExecutionStatus::Running, None, None, t@, held.driver, now.lease_end());
        }
        Ok(Drive { workflow_id, ready })
    }

    /// The ids of the executions that run or are suspended.
    pub fn active_execution_ids(&self) -> (r: Vec<u128>)
        ensures
            r@ == active_ids(self@.store.active(), self@.store.active().len()),
    {
        let active = self.store.list_active();
        let ghost s = self@.store.active();
        assert(execution_store::record_views(active@).len() == active@.len());
        let mut out: Vec<u128> = Vec::new();
        let mut i: usize = 0;
        while i < active.len()
            invariant
                i <= active@.len(),
                execution_store::record_views(active@) == s,
                out@ == active_ids(s, i as nat),
            decreases active@.len() - i,
        {
            assert(s[i as int] == active@[i as int]@);
            if let Ok(id) = ids::parse_id(active[i].workflow_id.as_str()) {
                out.push(id);
            }
            i += 1;
        }
        out
    }
}

/// The ids among the first `n` executions whose text is an id.
pub open spec fn active_ids(s: Seq<execution_store::ExecutionView>, n: nat) -> Seq<u128>
    decreases n,
{
    if n == 0 {
        Seq::empty()
    } else {
        match ids::id_parse(s[n - 1].workflow_id) {
            Ok(id) => active_ids(s, (n - 1) as nat).push(id),
            Err(_) => active_ids(s, (n - 1) as nat),
        }
    }
}

/// What a node to be handed out again is given: the payload of the run where it
/// waits for no node.
pub open spec fn recovered_input(
    w: WorkflowView,
    nodes: Seq<NodeView>,
    initial: JsonView,
    id: Seq<char>,
) -> JsonView {
    if upstream(w, id).len() == 0 {
        initial
    } else {
        gathered(w, nodes, id)
    }
}

/// The nodes to be handed out again among the first `n`.
pub open spec fn recovered_upto(
    w: WorkflowView,
    nodes: Seq<NodeView>,
    initial: JsonView,
    n: nat,
) -> Seq<(Seq<char>, JsonView)>
    decreases n,
{
    if n == 0 {
        Seq::empty()
    } else {
        let prior = recovered_upto(w, nodes, initial, (n - 1) as nat);
        let node = nodes[n - 1];
        if (node.status == NodeStatus::Pending || node.status == NodeStatus::Running) && unblocked(
            w,
            nodes,
            node.node_id,
        ) {
            prior.push((node.node_id, recovered_input(w, nodes, initial, node.node_id)))
        } else {
            prior
        }
    }
}

/// The nodes of an execution to be handed out again, each with its input.
pub open spec fn recovered_tasks(w: WorkflowView, v: StoreView, wid: Seq<char>) -> Seq<
    (Seq<char>, JsonView),
> {
    let nodes = v.nodes_of(wid);
    recovered_upto(w, nodes, stored_value(v.row(wid)->0.record.initial_payload), nodes.len())
}

/// A change of how an execution stands leaves it with its driver.
proof fn lemma_finish_keeps_hold(
    v: StoreView,
    wid: Seq<char>,
    status: ExecutionStatus,
    result: Option<Seq<char>>,
    error: Option<Seq<char>>,
    t: Seq<char>,
    driver: Seq<char>,
    end: Instant,
)
    requires
        held_until(v, wid, driver, end),
    ensures
        held_until(v.finished(wid, status, result, error, t), wid, driver, end),
{
    execution_store::lemma_row_with_row(
        v,
        wid,
        wid,
        |r: execution_store::RowView|
            execution_store::RowView {
                record: execution_store::ExecutionView {
                    status,
                    result,
                    error,
                    updated_at: t,
                    ..r.record
                },
                ..r
            },
    );
    let u = v.finished(wid, status, result, error, t);
    assert forall|other: Seq<char>, x: Instant|
        other != driver && end.dated() && x.dated() implies (#[trigger] u.claimable(wid, other, x.words())
        <==> end.earlier(x)) by {
        assert(v.claimable(wid, other, x.words()) <==> end.earlier(x));
    }
}

/// An execution that was taken is still there.
proof fn lemma_claimed_row(v: StoreView, w: Seq<char>, driver: Seq<char>, until: Seq<char>)
    requires
        v.row(w) is Some,
    ensures
        v.claimed(w, driver, until).row(w) is Some,
{
    execution_store::lemma_row_with_row(
        v,
        w,
        w,
        |r: execution_store::RowView|
            execution_store::RowView {
                claimed_by: Some(driver),
                lease_expires_at: Some(until),
                ..r
            },
    );
}

proof fn lemma_none_fires(
    w: WorkflowView,
    nodes: Seq<NodeView>,
    edges: Seq<EdgeView>,
    tests: Seq<bool>,
    caps: Seq<Seq<char>>,
    n: nat,
)
    requires
        n <= edges.len(),
        forall|j: int| 0 <= j < n ==> !(#[trigger] edges[j]).fires(tests, caps),
    ensures
        newly_ready(w, nodes, edges, tests, caps, n).len() == 0,
    decreases n,
{
    if n > 0 {
        lemma_none_fires(w, nodes, edges, tests, caps, (n - 1) as nat);
    }
}

} // verus!

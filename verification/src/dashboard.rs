//! What the dashboard shows, and to whom.

use vstd::prelude::*;
use vstd::string::*;
use crate::dag;
use crate::decode;
use crate::error::{Outcome, OutcomeView};
use crate::events::{EventView, SupervisorEvent};
use crate::ids;
use crate::json::{Json, JsonView, NumberView};
use crate::registry;
use crate::registry::AgentRegistry;
use crate::supervisor;
use crate::text;
use crate::text_map;
use crate::text_map::TextMap;
use crate::types::{copy_texts, AgentNode, AgentNodeView, SpawnPolicy};
use crate::workflow::{Workflow, WorkflowView};

verus! {

/// How the dashboard is served.
#[derive(Debug, PartialEq, Eq)]
pub struct DashboardConfig {
    pub port: u16,
    /// Without a token everyone may look. With one, a request needs the header
    /// `Authorization: Bearer <token>`.
    pub auth_token: Option<String>,
}

impl Default for DashboardConfig {
    fn default() -> (r: DashboardConfig)
        ensures
            r.port == 7700,
            r.auth_token is None,
    {
        DashboardConfig { port: 7700, auth_token: None }
    }
}

/// Whether a request with this `Authorization` header may look.
pub open spec fn may_look(token: Option<Seq<char>>, header: Option<Seq<char>>) -> bool {
    token matches Some(t) ==> header == Some("Bearer "@ + t)
}

/// See `may_look`.
pub fn check_auth(auth_token: &Option<String>, header: Option<&str>) -> (r: bool)
    ensures
        r == may_look(
            text::opt(*auth_token),
            match header {
                Some(h) => Some(h@),
                None => None,
            },
        ),
{
    match auth_token {
        None => true,
        Some(t) => match header {
            None => false,
            Some(h) => text::same(h, text::cat("Bearer ", t.as_str()).as_str()),
        },
    }
}

/// The tokens that an agent has read and written.
#[derive(Debug, Clone, Copy, PartialEq, Eq)]
pub struct NodeTokens {
    pub tokens_in: u64,
    pub tokens_out: u64,
}

/// The tokens of all agents.
#[derive(Debug)]
pub struct TokenAccumulator {
    inner: TextMap<NodeTokens>,
}

/// The tokens of an agent; nought where none were counted.
pub open spec fn tokens_of(m: Map<Seq<char>, NodeTokens>, node: Seq<char>) -> NodeTokens {
    if m.dom().contains(node) {
        m[node]
    } else {
        NodeTokens { tokens_in: 0, tokens_out: 0 }
    }
}

impl View for TokenAccumulator {
    type V = Map<Seq<char>, NodeTokens>;

    closed spec fn view(&self) -> Map<Seq<char>, NodeTokens> {
        self.inner@
    }
}

impl Default for TokenAccumulator {
    fn default() -> (r: TokenAccumulator)
        ensures
            r@ == Map::<Seq<char>, NodeTokens>::empty(),
    {
        TokenAccumulator::new()
    }
}

impl TokenAccumulator {
    /// Nothing counted yet.
    pub fn new() -> (r: TokenAccumulator)
        ensures
            r@ == Map::<Seq<char>, NodeTokens>::empty(),
    {
        TokenAccumulator { inner: TextMap::new() }
    }

    /// Count tokens of an agent.
    pub fn add(&mut self, node: &str, tokens_in: u64, tokens_out: u64)
        requires
            tokens_of(old(self)@, node@).tokens_in + tokens_in <= u64::MAX,
            tokens_of(old(self)@, node@).tokens_out + tokens_out <= u64::MAX,
        ensures
            final(self)@ == old(self)@.insert(
                node@,
                NodeTokens {
                    tokens_in: (tokens_of(old(self)@, node@).tokens_in + tokens_in) as u64,
                    tokens_out: (tokens_of(old(self)@, node@).tokens_out + tokens_out) as u64,
                },
            ),
    {
        let seen = self.get(node);
        self.inner.insert(
            node.to_string(),
            NodeTokens {
                tokens_in: seen.tokens_in + tokens_in,
                tokens_out: seen.tokens_out + tokens_out,
            },
        );
    }

    /// The tokens of an agent.
    pub fn get(&self, node: &str) -> (r: NodeTokens)
        ensures
            r == tokens_of(self@, node@),
    {
        match self.inner.get(node) {
            Some(t) => *t,
            None => NodeTokens { tokens_in: 0, tokens_out: 0 },
        }
    }

    /// The tokens of all agents.
    pub fn snapshot(&self) -> (r: TextMap<NodeTokens>)
        ensures
            r@ == self@,
    {
        let r = self.inner.clone();
        assert(r@ =~= self@);
        r
    }
}

/// The count in a label; nought where there is no such label or it is no number.
pub open spec fn count_in(labels: Map<Seq<char>, Seq<char>>, k: Seq<char>) -> u64 {
    if labels.dom().contains(k) {
        match text::number_of(labels[k]) {
            Some(n) => n,
            None => 0,
        }
    } else {
        0
    }
}

/// The tokens that an answer tells of in its labels.
pub open spec fn told_tokens(labels: Map<Seq<char>, Seq<char>>) -> NodeTokens {
    NodeTokens {
        tokens_in: count_in(labels, "tokens_input"@),
        tokens_out: count_in(labels, "tokens_output"@),
    }
}

fn read_count(labels: &TextMap<String>, k: &str) -> (r: u64)
    ensures
        r == count_in(decode::labels(labels@), k@),
{
    match labels.get(k) {
        Some(s) => match text::number(s.as_str()) {
            Some(n) => n,
            None => 0,
        },
        None => 0,
    }
}

/// See `told_tokens`.
pub fn reply_tokens(labels: &TextMap<String>) -> (r: NodeTokens)
    ensures
        r == told_tokens(decode::labels(labels@)),
{
    NodeTokens {
        tokens_in: read_count(labels, "tokens_input"),
        tokens_out: read_count(labels, "tokens_output"),
    }
}

/// A sum, or the largest number where it is less.
pub open spec fn bounded_sum(a: u64, b: u64) -> u64 {
    if a + b <= u64::MAX {
        (a + b) as u64
    } else {
        u64::MAX
    }
}

/// The tokens of all agents after an answer of one. A count stops at the largest
/// number.
pub open spec fn with_reply(
    m: Map<Seq<char>, NodeTokens>,
    node: Seq<char>,
    labels: Map<Seq<char>, Seq<char>>,
) -> Map<Seq<char>, NodeTokens> {
    let seen = tokens_of(m, node);
    let told = told_tokens(labels);
    m.insert(
        node,
        NodeTokens {
            tokens_in: bounded_sum(seen.tokens_in, told.tokens_in),
            tokens_out: bounded_sum(seen.tokens_out, told.tokens_out),
        },
    )
}

impl TokenAccumulator {
    /// Count the tokens that an answer tells of.
    pub fn add_reply(&mut self, node: &str, labels: &TextMap<String>)
        ensures
            final(self)@ == with_reply(old(self)@, node@, decode::labels(labels@)),
    {
        let seen = self.get(node);
        let told = reply_tokens(labels);
        let tokens_in: u64 = if told.tokens_in <= u64::MAX - seen.tokens_in {
            told.tokens_in
        } else {
            u64::MAX - seen.tokens_in
        };
        let tokens_out: u64 = if told.tokens_out <= u64::MAX - seen.tokens_out {
            told.tokens_out
        } else {
            u64::MAX - seen.tokens_out
        };
        self.add(node, tokens_in, tokens_out);
    }
}

/// Counts of one agent add up, and those of other agents are as they were.
pub proof fn law_tokens_add_up(
    m: Map<Seq<char>, NodeTokens>,
    after: Map<Seq<char>, NodeTokens>,
    node: Seq<char>,
    tokens_in: u64,
    tokens_out: u64,
    other: Seq<char>,
)
    requires
        tokens_of(m, node).tokens_in + tokens_in <= u64::MAX,
        tokens_of(m, node).tokens_out + tokens_out <= u64::MAX,
        after == m.insert(
            node,
            NodeTokens {
                tokens_in: (tokens_of(m, node).tokens_in + tokens_in) as u64,
                tokens_out: (tokens_of(m, node).tokens_out + tokens_out) as u64,
            },
        ),
        other != node,
    ensures
        tokens_of(after, node).tokens_in == tokens_of(m, node).tokens_in + tokens_in,
        tokens_of(after, node).tokens_out == tokens_of(m, node).tokens_out + tokens_out,
        tokens_of(after, other) == tokens_of(m, other),
{
}

/// A run that the dashboard knows of.
#[derive(Debug, PartialEq, Eq)]
pub struct WorkflowInfo {
    pub workflow_id: String,
    pub entries: Vec<String>,
    pub status: String,
}

/// A `WorkflowInfo` as a mathematical value.
#[verifier::ext_equal]
pub struct InfoView {
    pub workflow_id: Seq<char>,
    pub entries: Seq<Seq<char>>,
    pub status: Seq<char>,
}

impl View for WorkflowInfo {
    type V = InfoView;

    open spec fn view(&self) -> InfoView {
        InfoView {
            workflow_id: self.workflow_id@,
            entries: text::strs(self.entries@),
            status: self.status@,
        }
    }
}

/// The word for an outcome.
pub open spec fn outcome_word(o: OutcomeView) -> Seq<char> {
    match o {
        OutcomeView::Success(_) => "done"@,
        OutcomeView::Timeout { .. } => "timeout"@,
        OutcomeView::Failed { .. } => "failed"@,
        OutcomeView::Suspended { .. } => "suspended"@,
    }
}

/// The runs with another status for one that is known.
pub open spec fn with_status(m: Map<Seq<char>, InfoView>, w: Seq<char>, status: Seq<char>) -> Map<
    Seq<char>,
    InfoView,
> {
    if m.dom().contains(w) {
        m.insert(w, InfoView { status, ..m[w] })
    } else {
        m
    }
}

/// The runs after an event.
pub open spec fn after_event(m: Map<Seq<char>, InfoView>, e: EventView) -> Map<Seq<char>, InfoView> {
    match e {
        EventView::WorkflowStarted { workflow_id, entries } => m.insert(
            ids::id_text(workflow_id),
            InfoView { workflow_id: ids::id_text(workflow_id), entries, status: "running"@ },
        ),
        EventView::WorkflowFinished { workflow_id, result } => with_status(
            m,
            ids::id_text(workflow_id),
            outcome_word(result),
        ),
        EventView::NodeSuspended { workflow_id, .. } => with_status(
            m,
            ids::id_text(workflow_id),
            "suspended"@,
        ),
        _ => m,
    }
}

/// What the dashboard keeps.
#[derive(Debug)]
pub struct AppState {
    pub tokens: TokenAccumulator,
    pub active_workflows: TextMap<WorkflowInfo>,
    pub workflow_graphs: TextMap<String>,
    /// Workflows that can be resumed here, by the id of their execution.
    pub workflows: TextMap<Workflow>,
}

/// An `AppState` as a mathematical value.
#[verifier::ext_equal]
pub struct AppView {
    pub runs: Map<Seq<char>, InfoView>,
    pub graphs: Map<Seq<char>, Seq<char>>,
    pub workflows: Map<Seq<char>, WorkflowView>,
}

impl View for AppState {
    type V = AppView;

    open spec fn view(&self) -> AppView {
        AppView {
            runs: self.active_workflows@.map_values(|i: WorkflowInfo| i@),
            graphs: decode::labels(self.workflow_graphs@),
            workflows: self.workflows@.map_values(|w: Workflow| w@),
        }
    }
}

impl AppState {
    /// A dashboard that knows of nothing yet.
    pub fn new() -> (r: AppState)
        ensures
            r@ == (AppView { runs: Map::empty(), graphs: Map::empty(), workflows: Map::empty() }),
            r.tokens@ == Map::<Seq<char>, NodeTokens>::empty(),
    {
        let r = AppState {
            tokens: TokenAccumulator::new(),
            active_workflows: TextMap::new(),
            workflow_graphs: TextMap::new(),
            workflows: TextMap::new(),
        };
        assert(r@ =~= AppView { runs: Map::empty(), graphs: Map::empty(), workflows: Map::empty() });
        r
    }

    /// Keep a workflow under the id of its execution, so that it can be resumed.
    pub fn register_workflow(&mut self, id: &str, workflow: Workflow)
        ensures
            final(self)@ == (AppView {
                workflows: old(self)@.workflows.insert(id@, workflow@),
                ..old(self)@
            }),
            final(self).tokens == old(self).tokens,
    {
        let ghost w = workflow@;
        self.workflows.insert(id.to_string(), workflow);
        assert(self@.workflows =~= old(self)@.workflows.insert(id@, w));
    }

    /// The workflow that was kept under an id.
    pub fn get_workflow(&self, id: &str) -> (r: Option<&Workflow>)
        ensures
            match r {
                Some(w) => self@.workflows.dom().contains(id@) && w@ == self@.workflows[id@],
                None => !self@.workflows.dom().contains(id@),
            },
    {
        self.workflows.get(id)
    }

    /// Keep the drawing of a workflow.
    pub fn set_graph(&mut self, id: &str, graph: String)
        ensures
            final(self)@ == (AppView { graphs: old(self)@.graphs.insert(id@, graph@), ..old(self)@ }),
            final(self).tokens == old(self).tokens,
    {
        let ghost g = graph@;
        self.workflow_graphs.insert(id.to_string(), graph);
        assert(self@.graphs =~= old(self)@.graphs.insert(id@, g));
    }

    /// The drawing of a workflow.
    pub fn graph(&self, id: &str) -> (r: Option<String>)
        ensures
            match r {
                Some(g) => self@.graphs.dom().contains(id@) && g@ == self@.graphs[id@],
                None => !self@.graphs.dom().contains(id@),
            },
    {
        match self.workflow_graphs.get(id) {
            Some(g) => Some(g.clone()),
            None => None,
        }
    }

    fn set_status(&mut self, wid: &str, status: &str)
        ensures
            final(self)@ == (AppView { runs: with_status(old(self)@.runs, wid@, status@), ..old(self)@ }),
            final(self).tokens == old(self).tokens,
    {
        let ghost before = self@;
        let changed = match self.active_workflows.get(wid) {
            Some(info) => Some(
                WorkflowInfo {
                    workflow_id: info.workflow_id.clone(),
                    entries: copy_texts(&info.entries),
                    status: status.to_string(),
                },
            ),
            None => None,
        };
        if let Some(info) = changed {
            let ghost x = info@;
            self.active_workflows.insert(wid.to_string(), info);
            assert(self@.runs =~= before.runs.insert(wid@, x));
        }
    }

    /// Take in an event of the supervisor.
    pub fn apply_event(&mut self, event: &SupervisorEvent)
        ensures
            final(self)@ == (AppView { runs: after_event(old(self)@.runs, event@), ..old(self)@ }),
            final(self).tokens == old(self).tokens,
    {
        let ghost before = self@;
        match event {
            SupervisorEvent::WorkflowStarted { workflow_id, entries } => {
                let wid = ids::text_of_id(*workflow_id);
                let info = WorkflowInfo {
                    workflow_id: wid.clone(),
                    entries: copy_texts(entries),
                    status: "running".to_string(),
                };
                let ghost x = info@;
                self.active_workflows.insert(wid.clone(), info);
                assert(self@.runs =~= before.runs.insert(wid@, x));
            },
            SupervisorEvent::WorkflowFinished { workflow_id, result } => {
                let wid = ids::text_of_id(*workflow_id);
                let status = match result {
                    Outcome::Success(_) => "done",
                    Outcome::Timeout { .. } => "timeout",
                    Outcome::Failed { .. } => "failed",
                    Outcome::Suspended { .. } => "suspended",
                };
                self.set_status(wid.as_str(), status);
            },
            SupervisorEvent::NodeSuspended { workflow_id, .. } => {
                let wid = ids::text_of_id(*workflow_id);
                self.set_status(wid.as_str(), "suspended");
            },
            _ => {},
        }
    }

    /// The runs, as a JSON value.
    pub fn workflows_json(&self) -> (r: Json)
        ensures
            r@ == runs_json(self@.runs),
    {
        let n: usize = self.active_workflows.len();
        let ghost keys = self.active_workflows.keys();
        proof {
            assert(self@.runs.dom() =~= self.active_workflows@.dom());
            text_map::lemma_ascending_unique(keys, text_map::sorted_keys(self@.runs));
        }
        let mut out: Vec<Json> = Vec::new();
        let mut i: usize = 0;
        while i < n
            invariant
                i <= n,
                n == keys.len(),
                keys == self.active_workflows.keys(),
                keys == text_map::sorted_keys(self@.runs),
                out@.len() == i,
                forall|j: int| 0 <= j < i ==> (#[trigger] out@[j])@ == info_json(self@.runs[keys[j]]),
            decreases n - i,
        {
            let (_, info) = self.active_workflows.at(i);
            let entries = supervisor::text_list(&info.entries);
            assert(entries@->List_0 =~= dag::texts_json(info@.entries)->List_0);
            let mut m: TextMap<Json> = TextMap::new();
            m.insert("workflow_id".to_string(), Json::text(info.workflow_id.as_str()));
            m.insert("entries".to_string(), entries);
            m.insert("status".to_string(), Json::text(info.status.as_str()));
            let row = Json::Object(m);
            assert(row@->Object_0 =~= info_json(info@)->Object_0);
            out.push(row);
            i += 1;
        }
        let r = Json::List(out);
        assert(r@->List_0 =~= runs_json(self@.runs)->List_0);
        r
    }

    /// The agents with their tokens, as a JSON value.
    pub fn agents_json(&self, registry: &AgentRegistry) -> (r: Json)
        ensures
            r@ == agents_view(registry::agents(registry@), self.tokens@),
    {
        let nodes = registry.list();
        let ghost s = registry::agents(registry@);
        assert(registry::node_views(nodes@).len() == nodes@.len());
        let mut out: Vec<Json> = Vec::new();
        let mut i: usize = 0;
        while i < nodes.len()
            invariant
                i <= nodes@.len(),
                registry::node_views(nodes@) == s,
                out@.len() == i,
                forall|j: int| 0 <= j < i ==> (#[trigger] out@[j])@ == agent_json(s[j], tokens_of(self.tokens@, s[j].name)),
            decreases nodes@.len() - i,
        {
            assert(s[i as int] == nodes@[i as int]@);
            let tokens = self.tokens.get(nodes[i].name.as_str());
            out.push(agent_to_json(&nodes[i], tokens));
            i += 1;
        }
        let r = Json::List(out);
        assert(r@->List_0 =~= agents_view(s, self.tokens@)->List_0);
        r
    }
}

/// A run as a JSON value.
pub open spec fn info_json(v: InfoView) -> JsonView {
    JsonView::Object(
        map![
            "workflow_id"@ => JsonView::Text(v.workflow_id),
            "entries"@ => dag::texts_json(v.entries),
            "status"@ => JsonView::Text(v.status),
        ],
    )
}

/// The runs as a JSON value, in the order of their ids.
pub open spec fn runs_json(m: Map<Seq<char>, InfoView>) -> JsonView {
    let keys = text_map::sorted_keys(m);
    JsonView::List(Seq::new(keys.len(), |i: int| info_json(m[keys[i]])))
}

/// The text for a spawn policy.
pub open spec fn spawn_text(p: SpawnPolicy) -> Seq<char> {
    match p {
        SpawnPolicy::Singleton { max_queue: None } => "Singleton { max_queue: None }"@,
        SpawnPolicy::Singleton { max_queue: Some(n) } => "Singleton { max_queue: Some("@
            + text::decimal_text(n as nat) + ") }"@,
        SpawnPolicy::Pool { size } => "Pool { size: "@ + text::decimal_text(size as nat) + " }"@,
        SpawnPolicy::PerRequest => "PerRequest"@,
    }
}

fn spawn_to_text(p: SpawnPolicy) -> (r: String)
    ensures
        r@ == spawn_text(p),
{
    match p {
        SpawnPolicy::Singleton { max_queue: None } => "Singleton { max_queue: None }".to_string(),
        SpawnPolicy::Singleton { max_queue: Some(n) } => {
            let mut s = text::cat("Singleton { max_queue: Some(", text::decimal(n as u64).as_str());
            s.append(") }");
            s
        },
        SpawnPolicy::Pool { size } => {
            let mut s = text::cat("Pool { size: ", text::decimal(size as u64).as_str());
            s.append(" }");
            s
        },
        SpawnPolicy::PerRequest => "PerRequest".to_string(),
    }
}

/// An agent with its tokens as a JSON value.
pub open spec fn agent_json(n: AgentNodeView, t: NodeTokens) -> JsonView {
    JsonView::Object(
        map![
            "name"@ => JsonView::Text(n.name),
            "capabilities"@ => dag::texts_json(n.capabilities),
            "spawn_policy"@ => JsonView::Text(spawn_text(n.spawn)),
            "tokens_in"@ => JsonView::Number(NumberView::Int(t.tokens_in as int)),
            "tokens_out"@ => JsonView::Number(NumberView::Int(t.tokens_out as int)),
            "metadata"@ => dag::labels_json(n.metadata),
        ],
    )
}

/// Agents with their tokens as a JSON value.
pub open spec fn agents_view(s: Seq<AgentNodeView>, tokens: Map<Seq<char>, NodeTokens>) -> JsonView {
    JsonView::List(Seq::new(s.len(), |i: int| agent_json(s[i], tokens_of(tokens, s[i].name))))
}

fn agent_to_json(node: &AgentNode, tokens: NodeTokens) -> (r: Json)
    ensures
        r@ == agent_json(node@, tokens),
{
    let capabilities = supervisor::text_list(&node.capabilities);
    assert(capabilities@->List_0 =~= dag::texts_json(node@.capabilities)->List_0);
    let mut m: TextMap<Json> = TextMap::new();
    m.insert("name".to_string(), Json::text(node.name.as_str()));
    m.insert("capabilities".to_string(), capabilities);
    m.insert("spawn_policy".to_string(), Json::string(spawn_to_text(node.spawn)));
    m.insert("tokens_in".to_string(), Json::uint(tokens.tokens_in));
    m.insert("tokens_out".to_string(), Json::uint(tokens.tokens_out));
    m.insert("metadata".to_string(), dag::labels_to_json(&node.metadata));
    let r = Json::Object(m);
    assert(r@->Object_0 =~= agent_json(node@, tokens)->Object_0);
    r
}

} // verus!

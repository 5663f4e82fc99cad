//! From a goal to a run: a planner is asked for a DAG, the DAG is resolved against
//! the registered instances, and the workflow that comes of it is run.

use vstd::prelude::*;
use vstd::string::*;
use std::time::Duration;
use crate::clock::Instant;
use crate::dag;
use crate::dag::{DagNode, DagNodeView, DagSpec};
use crate::dag_laws;
use crate::envelope::{Envelope, EnvelopeKind, EnvelopeView};
use crate::error::{AetherError, ErrorView, Outcome, OutcomeView};
use crate::execution_laws;
use crate::execution_store;
use crate::execution_store::{ExecutionRecord, ExecutionStore, NodeStatus, NodeView, StoreView};
use crate::ids;
use crate::json;
use crate::json::{Json, JsonView};
use crate::registry::AgentRegistry;
use crate::registry_store;
use crate::registry_store::{EntryView, RegistrationEntry, RegistryStatus, RegistryStore};
use crate::supervisor;
use crate::text;
use crate::text_map;
use crate::text_map::TextMap;
use crate::types::{
    AgentEndpoint, AgentNode, AgentNodeView, EndpointView, FailurePolicy, FailureView,
    HttpAgentFactory, SpawnPolicy,
};
use crate::workflow;
use crate::workflow::{EdgeView, Workflow, WorkflowView};

verus! {

/// The length of time that `Duration::from_secs` of std makes.
pub uninterp spec fn seconds(n: u64) -> Duration;

/// `Duration::from_secs` of std, which is named.
#[verifier::external_body]
fn duration(n: u64) -> (r: Duration)
    ensures
        r == seconds(n),
{
    Duration::from_secs(n)
}

/// The agent that runs a node of a DAG at an address.
pub open spec fn node_agent(
    id: Seq<char>,
    url: Seq<char>,
    instruction: Option<Seq<char>>,
    gate_deadline_secs: Option<u64>,
) -> AgentNodeView {
    AgentNodeView {
        name: id,
        capabilities: Seq::empty(),
        factory: EndpointView::Http { node_name: id, http_url: url },
        spawn: SpawnPolicy::PerRequest,
        failure: FailureView { retries: 0, restart_on_failure: false, fallback: None },
        timeout: seconds(300),
        shutdown_grace: seconds(5),
        metadata: match instruction {
            Some(s) => map!["instruction"@ => s],
            None => Map::empty(),
        },
        gate_deadline_secs,
    }
}

/// The agent that runs a node of a DAG at an address.
pub fn registration_to_node(
    node_id: &str,
    http_url: &str,
    instruction: &Option<String>,
    gate_deadline_secs: Option<u64>,
) -> (r: AgentNode)
    ensures
        r@ == node_agent(node_id@, http_url@, text::opt(*instruction), gate_deadline_secs),
{
    let mut metadata: TextMap<String> = TextMap::new();
    if let Some(s) = instruction {
        metadata.insert("instruction".to_string(), s.clone());
    }
    let r = AgentNode {
        name: node_id.to_string(),
        capabilities: Vec::new(),
        factory: AgentEndpoint::Http(
            HttpAgentFactory { node_name: node_id.to_string(), http_url: http_url.to_string() },
        ),
        spawn: SpawnPolicy::PerRequest,
        failure: FailurePolicy::default(),
        timeout: duration(300),
        shutdown_grace: duration(5),
        metadata,
        gate_deadline_secs,
    };
    proof {
        assert(r@.capabilities =~= Seq::empty());
        assert(r@.metadata =~= node_agent(node_id@, http_url@, text::opt(*instruction), gate_deadline_secs).metadata);
    }
    r
}

/// The first healthy instance that offers a capability.
pub open spec fn capable(entries: Seq<EntryView>, capability: Seq<char>) -> Option<EntryView> {
    execution_store::first(
        entries,
        |e: EntryView| e.status == RegistryStatus::Healthy && e.capabilities.contains(capability),
    )
}

/// The first healthy instance of an agent.
pub open spec fn named(entries: Seq<EntryView>, name: Seq<char>) -> Option<EntryView> {
    execution_store::first(
        entries,
        |e: EntryView| e.status == RegistryStatus::Healthy && e.name == name,
    )
}

/// See `capable`.
pub fn find_capable<'a>(entries: &'a Vec<RegistrationEntry>, capability: &str) -> (r: Option<&'a RegistrationEntry>)
    ensures
        match r {
            Some(e) => capable(registry_store::entry_views(entries@), capability@) == Some(e@),
            None => capable(registry_store::entry_views(entries@), capability@) is None,
        },
{
    let ghost s = registry_store::entry_views(entries@);
    let ghost p = |e: EntryView| e.status == RegistryStatus::Healthy && e.capabilities.contains(capability@);
    let mut i: usize = 0;
    while i < entries.len()
        invariant
            i <= entries@.len(),
            s == registry_store::entry_views(entries@),
            p == (|e: EntryView| e.status == RegistryStatus::Healthy && e.capabilities.contains(capability@)),
            forall|j: int| 0 <= j < i ==> !p(#[trigger] s[j]),
        decreases entries@.len() - i,
    {
        assert(s[i as int] == entries@[i as int]@);
        if entries[i].status == RegistryStatus::Healthy && text::contains(&entries[i].capabilities, capability) {
            proof {
                execution_store::lemma_first_at(s, p, i as int);
            }
            return Some(&entries[i]);
        }
        i += 1;
    }
    proof {
        execution_store::lemma_first_at(s, p, i as int);
    }
    None
}

/// See `named`.
pub fn find_named<'a>(entries: &'a Vec<RegistrationEntry>, name: &str) -> (r: Option<&'a RegistrationEntry>)
    ensures
        match r {
            Some(e) => named(registry_store::entry_views(entries@), name@) == Some(e@),
            None => named(registry_store::entry_views(entries@), name@) is None,
        },
{
    let ghost s = registry_store::entry_views(entries@);
    let ghost p = |e: EntryView| e.status == RegistryStatus::Healthy && e.name == name@;
    let mut i: usize = 0;
    while i < entries.len()
        invariant
            i <= entries@.len(),
            s == registry_store::entry_views(entries@),
            p == (|e: EntryView| e.status == RegistryStatus::Healthy && e.name == name@),
            forall|j: int| 0 <= j < i ==> !p(#[trigger] s[j]),
        decreases entries@.len() - i,
    {
        assert(s[i as int] == entries@[i as int]@);
        if entries[i].status == RegistryStatus::Healthy && text::same(entries[i].name.as_str(), name) {
            proof {
                execution_store::lemma_first_at(s, p, i as int);
            }
            return Some(&entries[i]);
        }
        i += 1;
    }
    proof {
        execution_store::lemma_first_at(s, p, i as int);
    }
    None
}

/// The words for a capability that no healthy instance offers.
pub open spec fn no_capable(capability: Seq<char>) -> Seq<char> {
    "no healthy agent for capability '"@ + capability + "'"@
}

/// The words for an agent without a healthy instance.
pub open spec fn no_named(name: Seq<char>) -> Seq<char> {
    "no healthy instance for agent '"@ + name + "'"@
}

/// The instance that runs a node: the pinned agent's where there is a pin, and
/// one that offers the capability otherwise; or the words for the lack of one.
pub open spec fn resolved(entries: Seq<EntryView>, n: DagNodeView) -> Result<EntryView, Seq<char>> {
    match n.agent {
        Some(name) => match named(entries, name) {
            Some(e) => Ok(e),
            None => Err(no_named(name)),
        },
        None => match capable(entries, n.capability->0) {
            Some(e) => Ok(e),
            None => Err(no_capable(n.capability->0)),
        },
    }
}

/// The agents for the first `n` nodes of a DAG; the words for the first node that
/// no instance runs.
pub open spec fn resolved_upto(entries: Seq<EntryView>, d: Seq<DagNodeView>, n: nat) -> Result<
    Map<Seq<char>, AgentNodeView>,
    Seq<char>,
>
    decreases n,
{
    if n == 0 {
        Ok(Map::empty())
    } else {
        match resolved_upto(entries, d, (n - 1) as nat) {
            Err(e) => Err(e),
            Ok(m) => {
                let x = d[n - 1];
                match resolved(entries, x) {
                    Err(e) => Err(e),
                    Ok(e) => Ok(
                        m.insert(
                            x.id,
                            node_agent(x.id, e.http_url, x.instruction, x.gate_deadline_secs),
                        ),
                    ),
                }
            },
        }
    }
}

proof fn lemma_unresolved_stays(entries: Seq<EntryView>, d: Seq<DagNodeView>, n: nat, m: nat)
    requires
        n <= m,
        resolved_upto(entries, d, n) is Err,
    ensures
        resolved_upto(entries, d, m) == resolved_upto(entries, d, n),
    decreases m,
{
    if n < m {
        lemma_unresolved_stays(entries, d, n, (m - 1) as nat);
    }
}

/// The edges into the node `x`, one for each of the first `n` dependencies.
pub open spec fn edges_into(x: DagNodeView, n: nat) -> Seq<EdgeView>
    decreases n,
{
    if n == 0 {
        Seq::empty()
    } else {
        edges_into(x, (n - 1) as nat).push(
            EdgeView { from: x.depends_on[n - 1], to: x.id, when: None },
        )
    }
}

/// The edges into the first `n` nodes.
pub open spec fn edges_upto(d: Seq<DagNodeView>, n: nat) -> Seq<EdgeView>
    decreases n,
{
    if n == 0 {
        Seq::empty()
    } else {
        edges_upto(d, (n - 1) as nat) + edges_into(d[n - 1], d[n - 1].depends_on.len())
    }
}

/// The workflow that mirrors a DAG: an edge for each dependency.
pub open spec fn mirrored(d: Seq<DagNodeView>) -> WorkflowView {
    WorkflowView {
        entries: dag::ids_of(dag::entry_nodes(d)),
        edges: edges_upto(d, d.len()),
    }
}

/// The edges that a DAG has are those between a dependency and its node.
pub proof fn lemma_mirrored_edges(d: Seq<DagNodeView>, n: nat)
    requires
        n <= d.len(),
    ensures
        forall|e: EdgeView| #[trigger]
            edges_upto(d, n).contains(e) <==> exists|i: int, k: int|
                0 <= i < n && 0 <= k < d[i].depends_on.len() && e == (EdgeView {
                    from: #[trigger] d[i].depends_on[k],
                    to: d[i].id,
                    when: None,
                }),
    decreases n,
{
    if n > 0 {
        lemma_mirrored_edges(d, (n - 1) as nat);
        let a = edges_upto(d, (n - 1) as nat);
        let x = d[n - 1];
        let b = edges_into(x, x.depends_on.len());
        lemma_edges_into(x, x.depends_on.len());
        assert forall|e: EdgeView| #[trigger] (a + b).contains(e) <==> (a.contains(e) || b.contains(e)) by {
            if (a + b).contains(e) {
                let i = choose|i: int| 0 <= i < (a + b).len() && (a + b)[i] == e;
                if i < a.len() {
                    assert(a[i] == e);
                } else {
                    assert(b[i - a.len()] == e);
                }
            }
            if a.contains(e) {
                let i = choose|i: int| 0 <= i < a.len() && a[i] == e;
                assert((a + b)[i] == e);
            }
            if b.contains(e) {
                let i = choose|i: int| 0 <= i < b.len() && b[i] == e;
                assert((a + b)[i + a.len()] == e);
            }
        }
        assert forall|e: EdgeView| #[trigger] edges_upto(d, n).contains(e) <==> exists|i: int, k: int|
            0 <= i < n && 0 <= k < d[i].depends_on.len() && e == (EdgeView {
                from: #[trigger] d[i].depends_on[k],
                to: d[i].id,
                when: None,
            }) by {
            if b.contains(e) {
                let k = choose|k: int| 0 <= k < b.len() && b[k] == e;
                assert(d[n - 1].depends_on[k] == e.from);
            }
            if exists|i: int, k: int|
                0 <= i < n && 0 <= k < d[i].depends_on.len() && e == (EdgeView {
                    from: #[trigger] d[i].depends_on[k],
                    to: d[i].id,
                    when: None,
                }) {
                let (i, k) = choose|i: int, k: int|
                    0 <= i < n && 0 <= k < d[i].depends_on.len() && e == (EdgeView {
                        from: #[trigger] d[i].depends_on[k],
                        to: d[i].id,
                        when: None,
                    });
                if i == n - 1 {
                    assert(b[k] == e);
                } else {
                    assert(a.contains(e));
                }
            }
        }
    }
}

proof fn lemma_edges_into(x: DagNodeView, n: nat)
    requires
        n <= x.depends_on.len(),
    ensures
        edges_into(x, n).len() == n,
        forall|k: int|
            0 <= k < n ==> #[trigger] edges_into(x, n)[k] == (EdgeView {
                from: x.depends_on[k],
                to: x.id,
                when: None,
            }),
    decreases n,
{
    if n > 0 {
        lemma_edges_into(x, (n - 1) as nat);
    }
}

/// A walk of `k` nodes through a sound DAG in which every node has a dependency.
proof fn lemma_long_walk(d: Seq<DagNodeView>, k: nat) -> (p: Seq<Seq<char>>)
    requires
        dag::sound(d),
        forall|i: int| 0 <= i < d.len() ==> (#[trigger] d[i]).depends_on.len() > 0,
        k > 0,
    ensures
        p.len() == k,
        workflow::is_walk(edges_upto(d, d.len()), p),
        forall|i: int| 0 <= i < p.len() ==> dag::is_id(d, #[trigger] p[i]),
    decreases k,
{
    let es = edges_upto(d, d.len());
    if k == 1 {
        let p = seq![d[0].id];
        assert(dag::is_id(d, p[0]));
        p
    } else {
        let q = lemma_long_walk(d, (k - 1) as nat);
        assert(dag::is_id(d, q[0]));
        let j = choose|j: int| 0 <= j < d.len() && (#[trigger] d[j]).id == q[0];
        let y = d[j].depends_on[0];
        assert(dag::is_id(d, y));
        let e = EdgeView { from: y, to: q[0], when: None };
        lemma_mirrored_edges(d, d.len());
        assert(e == (EdgeView { from: d[j].depends_on[0], to: d[j].id, when: None }));
        assert(es.contains(e));
        let a = choose|a: int| 0 <= a < es.len() && es[a] == e;
        assert(workflow::linked(es, y, q[0]));
        let p = seq![y] + q;
        assert forall|i: int, m: int| 0 <= i && m == i + 1 && m < p.len() implies workflow::linked(
            es,
            #[trigger] p[i],
            #[trigger] p[m],
        ) by {
            if i > 0 {
                assert(p[i] == q[i - 1] && p[m] == q[m - 1]);
            }
        }
        assert forall|i: int| 0 <= i < p.len() implies dag::is_id(d, #[trigger] p[i]) by {
            if i > 0 {
                assert(p[i] == q[i - 1]);
            }
        }
        p
    }
}

/// A sound DAG in which every node has a dependency has a cycle.
pub proof fn law_no_entry_means_cycle(d: Seq<DagNodeView>)
    requires
        dag::sound(d),
        dag::entry_nodes(d).len() == 0,
    ensures
        workflow::cyclic(mirrored(d).edges),
{
    let es = edges_upto(d, d.len());
    let entry = |n: DagNodeView| n.depends_on.len() == 0;
    assert forall|i: int| 0 <= i < d.len() implies (#[trigger] d[i]).depends_on.len() > 0 by {
        if d[i].depends_on.len() == 0 {
            d.lemma_filter_contains(entry, i);
            assert(dag::entry_nodes(d).contains(d[i]));
        }
    }
    let p = lemma_long_walk(d, d.len() + 1);
    let u = dag::ids_of(d);
    assert forall|i: int| 0 <= i < p.len() implies u.contains(#[trigger] p[i]) by {
        assert(dag::is_id(d, p[i]));
        let j = choose|j: int| 0 <= j < d.len() && (#[trigger] d[j]).id == p[i];
        assert(u[j] == p[i]);
    }
    if p.no_duplicates() {
        workflow::lemma_fits(p, u);
    }
    let (i, j) = choose|i: int, j: int|
        0 <= i < p.len() && 0 <= j < p.len() && i != j && p[i] == p[j];
    let a = if i < j {
        i
    } else {
        j
    };
    let b = if i < j {
        j
    } else {
        i
    };
    let c = p.subrange(a, b + 1);
    assert forall|x: int, y: int| 0 <= x && y == x + 1 && y < c.len() implies workflow::linked(
        es,
        #[trigger] c[x],
        #[trigger] c[y],
    ) by {
        assert(c[x] == p[x + a] && c[y] == p[y + a]);
    }
    assert(workflow::is_walk(es, c) && c.len() >= 2 && c[0] == c.last());
}

/// The first healthy instance that offers a capability, or an error.
pub fn resolve_capability(store: &RegistryStore, capability: &str) -> (r: Result<RegistrationEntry, AetherError>)
    ensures
        match r {
            Ok(e) => capable(store@.entries, capability@) == Some(e@),
            Err(e) => capable(store@.entries, capability@) is None && e@ == (ErrorView::RegistryError {
                message: no_capable(capability@),
            }),
        },
{
    match find_capable(&store.entries, capability) {
        Some(e) => Ok(e.clone()),
        None => {
            let mut message = text::cat("no healthy agent for capability '", capability);
            message.append("'");
            Err(AetherError::RegistryError { message })
        },
    }
}

/// See `resolved`.
fn resolve_node<'a>(entries: &'a Vec<RegistrationEntry>, node: &DagNode) -> (r: Result<&'a RegistrationEntry, AetherError>)
    requires
        node@.capability is Some || node@.agent is Some,
    ensures
        match r {
            Ok(e) => resolved(registry_store::entry_views(entries@), node@) == Ok::<EntryView, Seq<char>>(e@),
            Err(e) => resolved(registry_store::entry_views(entries@), node@) matches Err(message) && e@ == (
            ErrorView::RegistryError { message }),
        },
{
    match &node.agent {
        Some(name) => match find_named(entries, name.as_str()) {
            Some(e) => Ok(e),
            None => {
                let mut message = text::cat("no healthy instance for agent '", name.as_str());
                message.append("'");
                Err(AetherError::RegistryError { message })
            },
        },
        None => match &node.capability {
            Some(capability) => match find_capable(entries, capability.as_str()) {
                Some(e) => Ok(e),
                None => {
                    let mut message = text::cat("no healthy agent for capability '", capability.as_str());
                    message.append("'");
                    Err(AetherError::RegistryError { message })
                },
            },
            None => Err(AetherError::RegistryError { message: String::new() }),
        },
    }
}

/// What comes of a DAG and the registered instances: the agents and the workflow,
/// or the error.
pub open spec fn built(entries: Seq<EntryView>, d: Seq<DagNodeView>) -> Result<
    (Map<Seq<char>, AgentNodeView>, WorkflowView),
    ErrorView,
> {
    match dag::fault(d) {
        Some(message) => Err(ErrorView::WorkflowError { message }),
        None => match resolved_upto(entries, d, d.len()) {
            Err(message) => Err(ErrorView::RegistryError { message }),
            Ok(agents) => if workflow::cyclic(mirrored(d).edges) {
                Err(workflow::cycle_error())
            } else {
                Ok((agents, mirrored(d)))
            },
        },
    }
}

/// The agents resolved for the first `n` nodes are known by the ids of those nodes.
proof fn lemma_resolved_names(entries: Seq<EntryView>, d: Seq<DagNodeView>, n: nat)
    requires
        n <= d.len(),
        resolved_upto(entries, d, n) is Ok,
    ensures
        forall|x: Seq<char>| #[trigger]
            resolved_upto(entries, d, n)->Ok_0.dom().contains(x) <==> exists|i: int|
                0 <= i < n && (#[trigger] d[i]).id == x,
    decreases n,
{
    if n > 0 {
        lemma_resolved_names(entries, d, (n - 1) as nat);
        let m = resolved_upto(entries, d, (n - 1) as nat)->Ok_0;
        assert forall|x: Seq<char>| #[trigger] resolved_upto(entries, d, n)->Ok_0.dom().contains(x) <==> exists|i: int|
            0 <= i < n && (#[trigger] d[i]).id == x by {
            assert(m.dom().contains(x) <==> exists|i: int| 0 <= i < n - 1 && (#[trigger] d[i]).id == x);
            if d[n - 1].id == x {
                assert(0 <= n - 1 < n);
            }
        }
    }
}

/// What a workflow that mirrors a sound DAG mentions are ids of the DAG.
proof fn lemma_mirrored_names(d: Seq<DagNodeView>, w: WorkflowView)
    requires
        dag::sound(d),
        w.edges == edges_upto(d, d.len()),
        forall|x: Seq<char>| w.entries.contains(x) ==> dag::is_id(d, x),
    ensures
        forall|x: Seq<char>| #[trigger] w.names(x) ==> dag::is_id(d, x),
{
    lemma_mirrored_edges(d, d.len());
    assert forall|x: Seq<char>| #[trigger] w.names(x) implies dag::is_id(d, x) by {
        if !w.entries.contains(x) {
            let a = choose|a: int| 0 <= a < w.edges.len() && ((#[trigger] w.edges[a]).from == x || w.edges[a].to == x);
            let e = w.edges[a];
            assert(edges_upto(d, d.len()).contains(e));
            let (i, k) = choose|i: int, k: int|
                0 <= i < d.len() && 0 <= k < d[i].depends_on.len() && e == (EdgeView {
                    from: #[trigger] d[i].depends_on[k],
                    to: d[i].id,
                    when: None,
                });
            assert(dag::is_id(d, d[i].depends_on[k]));
            assert(dag::is_id(d, d[i].id));
        }
    }
}

/// A plan that is built runs the DAG: there is an agent for each node and for no
/// other name, a node waits for exactly the nodes that it depends on, the run
/// begins at the nodes without dependencies, the nodes that no node depends on are
/// those that no edge leaves, and no walk comes back to where it began.
pub proof fn law_plan_runs_the_dag(entries: Seq<EntryView>, d: Seq<DagNodeView>, x: Seq<char>, y: Seq<char>)
    requires
        built(entries, d) is Ok,
    ensures
        ({
            let (agents, w) = built(entries, d)->Ok_0;
            &&& agents.dom().contains(x) <==> dag::is_id(d, x)
            &&& supervisor::upstream(w, x).contains(y) <==> exists|i: int|
                0 <= i < d.len() && (#[trigger] d[i]).id == x && d[i].depends_on.contains(y)
            &&& w.entries.contains(x) <==> exists|i: int|
                0 <= i < d.len() && (#[trigger] d[i]).id == x && d[i].depends_on.len() == 0
            &&& supervisor::is_source(w, x) <==> dag::depended_on(d, x)
            &&& !workflow::cyclic(w.edges)
        }),
{
    let (agents, w) = built(entries, d)->Ok_0;
    lemma_resolved_names(entries, d, d.len());
    lemma_mirrored_edges(d, d.len());
    let into = |e: EdgeView| e.to == x;
    let incoming = w.incoming(x);
    let deps = supervisor::upstream(w, x);
    if deps.contains(y) {
        let k = choose|k: int| 0 <= k < deps.len() && deps[k] == y;
        let e = incoming[k];
        w.edges.lemma_filter_pred(into, k);
        w.edges.lemma_filter_contains_rev(into, e);
        assert(edges_upto(d, d.len()).contains(e));
        let (i, m) = choose|i: int, m: int|
            0 <= i < d.len() && 0 <= m < d[i].depends_on.len() && e == (EdgeView {
                from: #[trigger] d[i].depends_on[m],
                to: d[i].id,
                when: None,
            });
        assert(d[i].id == x && d[i].depends_on.contains(y));
    }
    if exists|i: int| 0 <= i < d.len() && (#[trigger] d[i]).id == x && d[i].depends_on.contains(y) {
        let i = choose|i: int|
            0 <= i < d.len() && (#[trigger] d[i]).id == x && d[i].depends_on.contains(y);
        let m = choose|m: int| 0 <= m < d[i].depends_on.len() && d[i].depends_on[m] == y;
        let e = EdgeView { from: d[i].depends_on[m], to: d[i].id, when: None };
        assert(edges_upto(d, d.len()).contains(e));
        let n = choose|n: int| 0 <= n < w.edges.len() && w.edges[n] == e;
        w.edges.lemma_filter_contains(into, n);
        let k = choose|k: int| 0 <= k < incoming.len() && incoming[k] == e;
        assert(deps[k] == y);
    }
    let free = |n: DagNodeView| n.depends_on.len() == 0;
    let firsts = d.filter(free);
    if w.entries.contains(x) {
        let k = choose|k: int| 0 <= k < w.entries.len() && w.entries[k] == x;
        d.lemma_filter_pred(free, k);
        d.lemma_filter_contains_rev(free, firsts[k]);
        let i = choose|i: int| 0 <= i < d.len() && d[i] == firsts[k];
        assert(d[i].id == x);
    }
    if exists|i: int| 0 <= i < d.len() && (#[trigger] d[i]).id == x && d[i].depends_on.len() == 0 {
        let i = choose|i: int|
            0 <= i < d.len() && (#[trigger] d[i]).id == x && d[i].depends_on.len() == 0;
        d.lemma_filter_contains(free, i);
        let k = choose|k: int| 0 <= k < firsts.len() && firsts[k] == d[i];
        assert(w.entries[k] == x);
    }
    if supervisor::is_source(w, x) {
        let n = choose|n: int| 0 <= n < w.edges.len() && (#[trigger] w.edges[n]).from == x;
        assert(edges_upto(d, d.len()).contains(w.edges[n]));
        let (i, m) = choose|i: int, m: int|
            0 <= i < d.len() && 0 <= m < d[i].depends_on.len() && w.edges[n] == (EdgeView {
                from: #[trigger] d[i].depends_on[m],
                to: d[i].id,
                when: None,
            });
        assert(d[i].depends_on.contains(x));
    }
    if dag::depended_on(d, x) {
        let i = choose|i: int| 0 <= i < d.len() && (#[trigger] d[i]).depends_on.contains(x);
        let m = choose|m: int| 0 <= m < d[i].depends_on.len() && d[i].depends_on[m] == x;
        let e = EdgeView { from: d[i].depends_on[m], to: d[i].id, when: None };
        assert(edges_upto(d, d.len()).contains(e));
        let n = choose|n: int| 0 <= n < w.edges.len() && w.edges[n] == e;
        assert(w.edges[n].from == x);
    }
}

/// Check a DAG, find an instance for each node, and build the workflow whose edges
/// mirror the dependencies.
pub fn build_registry_and_workflow(store: &RegistryStore, dag: &DagSpec) -> (r: Result<
    (AgentRegistry, Workflow),
    AetherError,
>)
    ensures
        match r {
            Ok((agents, w)) => built(store@.entries, dag@) == Ok::<
                (Map<Seq<char>, AgentNodeView>, WorkflowView),
                ErrorView,
            >((agents@, w@)),
            Err(e) => built(store@.entries, dag@) == Err::<
                (Map<Seq<char>, AgentNodeView>, WorkflowView),
                ErrorView,
            >(e@),
        },
{
    match dag.validate() {
        Err(e) => return Err(e),
        Ok(()) => {},
    }
    let ghost d = dag@;
    let ghost es = store@.entries;
    let mut registry = AgentRegistry::new();
    let mut i: usize = 0;
    while i < dag.nodes.len()
        invariant
            i <= dag.nodes@.len(),
            d == dag@,
            es == store@.entries,
            dag::sound(d),
            dag::fault(d) is None,
            resolved_upto(es, d, i as nat) == Ok::<Map<Seq<char>, AgentNodeView>, Seq<char>>(registry@),
        decreases dag.nodes@.len() - i,
    {
        assert(d[i as int] == dag.nodes@[i as int]@);
        match resolve_node(&store.entries, &dag.nodes[i]) {
            Err(e) => {
                proof {
                    lemma_unresolved_stays(es, d, (i + 1) as nat, d.len());
                }
                return Err(e);
            },
            Ok(entry) => {
                registry.register(
                    registration_to_node(
                        dag.nodes[i].id.as_str(),
                        entry.http_url.as_str(),
                        &dag.nodes[i].instruction,
                        dag.nodes[i].gate_deadline_secs,
                    ),
                );
            },
        }
        i += 1;
    }
    proof {
        lemma_resolved_names(es, d, d.len());
    }
    let mut builder = Workflow::builder(&registry);
    let entries = dag.entry_ids();
    let ghost firsts = dag::ids_of(dag::entry_nodes(d));
    let ghost known = registry@.dom();
    proof {
        dag_laws::lemma_picked_ids(d, |n: DagNodeView| n.depends_on.len() == 0);
    }
    assert(dag::slices(entries@).len() == entries@.len());
    let mut k: usize = 0;
    assert(firsts.take(0) =~= Seq::empty());
    while k < entries.len()
        invariant
            k <= entries@.len(),
            entries@.len() == firsts.len(),
            dag::slices(entries@) == firsts,
            firsts.no_duplicates(),
            builder.known() == known,
            !builder.entry_was_auto(),
            builder.plan() == (WorkflowView { entries: firsts.take(k as int), edges: Seq::empty() }),
        decreases entries@.len() - k,
    {
        proof {
            assert(dag::slices(entries@)[k as int] == entries@[k as int]@);
            text::lemma_take_more(firsts, k + 1);
            assert(!firsts.take(k as int).contains(firsts[k as int]));
        }
        builder = builder.entry(entries[k]);
        k += 1;
    }
    assert(firsts.take(firsts.len() as int) =~= firsts);
    let mut a: usize = 0;
    while a < dag.nodes.len()
        invariant
            a <= dag.nodes@.len(),
            d == dag@,
            builder.known() == known,
            builder.plan().edges == edges_upto(d, a as nat),
            firsts.len() > 0 ==> builder.plan().entries == firsts,
            firsts.len() == 0 ==> builder.plan().entries == fallback_entries(edges_upto(d, a as nat)),
        decreases dag.nodes@.len() - a,
    {
        assert(d[a as int] == dag.nodes@[a as int]@);
        let ghost x = d[a as int];
        let ghost prior = edges_upto(d, a as nat);
        assert(prior + edges_into(x, 0) =~= prior);
        let mut b: usize = 0;
        while b < dag.nodes[a].depends_on.len()
            invariant
                a < dag.nodes@.len(),
                b <= dag.nodes@[a as int].depends_on@.len(),
                x == dag.nodes@[a as int]@,
                builder.known() == known,
                builder.plan().edges == prior + edges_into(x, b as nat),
                firsts.len() > 0 ==> builder.plan().entries == firsts,
                firsts.len() == 0 ==> builder.plan().entries == fallback_entries(prior + edges_into(x, b as nat)),
            decreases dag.nodes@[a as int].depends_on@.len() - b,
        {
            let ghost edge = EdgeView { from: x.depends_on[b as int], to: x.id, when: None };
            builder = builder.edge(dag.nodes[a].depends_on[b].as_str(), dag.nodes[a].id.as_str());
            proof {
                assert((prior + edges_into(x, b as nat)).push(edge) =~= prior + edges_into(x, b as nat).push(edge));
            }
            b += 1;
        }
        a += 1;
    }
    let ghost plan = builder.plan();
    proof {
        lemma_plan_names(d, plan, firsts);
        assert forall|x: Seq<char>| #[trigger] plan.names(x) implies known.contains(x) by {
            assert(dag::is_id(d, x));
            let j = choose|j: int| 0 <= j < d.len() && (#[trigger] d[j]).id == x;
            assert(resolved_upto(es, d, d.len())->Ok_0.dom().contains(x));
        }
        if firsts.len() == 0 {
            law_no_entry_means_cycle(d);
            assert(plan.entries.len() > 0);
        }
    }
    match builder.build() {
        Err(e) => Err(e),
        Ok(w) => Ok((registry, w)),
    }
}

/// The entry that edges bring about where none was named.
spec fn fallback_entries(edges: Seq<EdgeView>) -> Seq<Seq<char>> {
    if edges.len() == 0 {
        Seq::empty()
    } else {
        seq![edges[0].from]
    }
}

proof fn lemma_plan_names(d: Seq<DagNodeView>, plan: WorkflowView, firsts: Seq<Seq<char>>)
    requires
        dag::sound(d),
        plan.edges == edges_upto(d, d.len()),
        firsts == dag::ids_of(dag::entry_nodes(d)),
        firsts.len() > 0 ==> plan.entries == firsts,
        firsts.len() == 0 ==> plan.entries == fallback_entries(plan.edges),
    ensures
        forall|x: Seq<char>| #[trigger] plan.names(x) ==> dag::is_id(d, x),
        firsts.len() == 0 ==> plan.entries.len() > 0,
{
    let entry = |n: DagNodeView| n.depends_on.len() == 0;
    let f = dag::entry_nodes(d);
    assert forall|x: Seq<char>| plan.entries.contains(x) implies dag::is_id(d, x) by {
        if firsts.len() > 0 {
            let i = choose|i: int| 0 <= i < firsts.len() && firsts[i] == x;
            assert(f.contains(f[i]));
            d.lemma_filter_contains_rev(entry, f[i]);
            let j = choose|j: int| 0 <= j < d.len() && d[j] == f[i];
            assert(d[j].id == x);
        } else {
            lemma_mirrored_edges(d, d.len());
            let e = plan.edges[0];
            assert(edges_upto(d, d.len()).contains(e));
            let (i, k) = choose|i: int, k: int|
                0 <= i < d.len() && 0 <= k < d[i].depends_on.len() && e == (EdgeView {
                    from: #[trigger] d[i].depends_on[k],
                    to: d[i].id,
                    when: None,
                });
            assert(dag::is_id(d, d[i].depends_on[k]));
        }
    }
    lemma_mirrored_names(d, plan);
    if firsts.len() == 0 {
        if d[0].depends_on.len() == 0 {
            d.lemma_filter_contains(entry, 0);
            assert(f.contains(d[0]));
        }
        lemma_mirrored_edges(d, d.len());
        let e = EdgeView { from: d[0].depends_on[0], to: d[0].id, when: None };
        assert(edges_upto(d, d.len()).contains(e));
    }
}

/// The position of the first `c` in a text.
pub open spec fn first_of(s: Seq<char>, c: char) -> Option<int>
    decreases s.len(),
{
    if s.len() == 0 {
        None
    } else if s[0] == c {
        Some(0)
    } else {
        match first_of(s.drop_first(), c) {
            Some(i) => Some(i + 1),
            None => None,
        }
    }
}

/// The position of the last `c` in a text.
pub open spec fn last_of(s: Seq<char>, c: char) -> Option<int>
    decreases s.len(),
{
    if s.len() == 0 {
        None
    } else if s.last() == c {
        Some(s.len() - 1)
    } else {
        last_of(s.drop_last(), c)
    }
}

/// What stands from the first opening brace to the last closing one.
pub open spec fn braced(s: Seq<char>) -> Option<Seq<char>> {
    match (first_of(s, '{'), last_of(s, '}')) {
        (Some(a), Some(b)) => if a <= b {
            Some(s.subrange(a, b + 1))
        } else {
            None
        },
        _ => None,
    }
}

proof fn lemma_first_of(s: Seq<char>, c: char, n: int)
    requires
        0 <= n <= s.len(),
        forall|i: int| 0 <= i < n ==> s[i] != c,
    ensures
        n < s.len() && s[n] == c ==> first_of(s, c) == Some(n),
        n == s.len() ==> first_of(s, c) is None,
    decreases n,
{
    if n > 0 {
        let t = s.drop_first();
        assert forall|i: int| 0 <= i < n - 1 implies t[i] != c by {
            assert(t[i] == s[i + 1]);
        }
        lemma_first_of(t, c, n - 1);
        if n < s.len() {
            assert(t[n - 1] == s[n]);
        }
    }
}

proof fn lemma_last_of(s: Seq<char>, c: char, n: int)
    requires
        0 <= n <= s.len(),
        forall|i: int| n <= i < s.len() ==> s[i] != c,
    ensures
        n > 0 && s[n - 1] == c ==> last_of(s, c) == Some(n - 1),
        n == 0 ==> last_of(s, c) is None,
    decreases s.len(),
{
    if s.len() > n {
        let t = s.drop_last();
        assert forall|i: int| n <= i < t.len() implies t[i] != c by {
            assert(t[i] == s[i]);
        }
        lemma_last_of(t, c, n);
    }
}

/// See `braced`.
fn slice_braces(s: &str) -> (r: Option<String>)
    ensures
        text::opt(r) == braced(s@),
{
    let cs = text::chars(s);
    let mut a: usize = 0;
    while a < cs.len() && cs[a] != '{'
        invariant
            a <= cs@.len(),
            forall|i: int| 0 <= i < a ==> cs@[i] != '{',
        decreases cs@.len() - a,
    {
        a += 1;
    }
    let mut b: usize = cs.len();
    while b > 0 && cs[b - 1] != '}'
        invariant
            b <= cs@.len(),
            forall|i: int| b <= i < cs@.len() ==> cs@[i] != '}',
        decreases b,
    {
        b -= 1;
    }
    proof {
        lemma_first_of(cs@, '{', a as int);
        lemma_last_of(cs@, '}', b as int);
    }
    if a < cs.len() && b > a {
        Some(s.substring_char(a, b).to_string())
    } else {
        None
    }
}

/// The DAG value in the answer of a planner: the JSON object in its `output` text,
/// whatever stands around it.
pub open spec fn planner_dag(payload: JsonView) -> Result<JsonView, ErrorView> {
    match json::member(payload, "output"@) {
        Some(JsonView::Text(s)) => match braced(s) {
            None => Err(
                ErrorView::WorkflowError { message: "planner output has no JSON object: "@ + s },
            ),
            Some(b) => match json::json_parse(b) {
                Ok(v) => Ok(v),
                Err(e) => Err(
                    ErrorView::WorkflowError { message: "planner output is not valid JSON: "@ + e },
                ),
            },
        },
        _ => Err(
            ErrorView::WorkflowError { message: "planner result missing string `output` field"@ },
        ),
    }
}

/// See `planner_dag`.
pub fn dag_from_planner_result(payload: &Json) -> (r: Result<Json, AetherError>)
    ensures
        match r {
            Ok(v) => planner_dag(payload@) == Ok::<JsonView, ErrorView>(v@),
            Err(e) => planner_dag(payload@) == Err::<JsonView, ErrorView>(e@),
        },
{
    let output = match payload.get("output") {
        Some(Json::Text(s)) => s,
        _ => {
            return Err(
                AetherError::WorkflowError {
                    message: "planner result missing string `output` field".to_string(),
                },
            );
        },
    };
    match slice_braces(output.as_str()) {
        None => Err(
            AetherError::WorkflowError {
                message: text::cat("planner output has no JSON object: ", output.as_str()),
            },
        ),
        Some(b) => match Json::parse(b.as_str()) {
            Ok(v) => Ok(v),
            Err(e) => Err(
                AetherError::WorkflowError {
                    message: text::cat("planner output is not valid JSON: ", e.as_str()),
                },
            ),
        },
    }
}

/// Turns goals into runs. Calls to the planner and to the agents are made by the
/// embedding program.
#[derive(Debug)]
pub struct Orchestrator {
    pub store: RegistryStore,
    pub execution_store: ExecutionStore,
}

/// A run that is ready to start.
#[derive(Debug)]
pub struct PlannedRun {
    pub registry: AgentRegistry,
    pub workflow: Workflow,
    /// The planned DAG, to be kept with the execution.
    pub spec_text: String,
}

/// A failure of the planner.
pub open spec fn planner_failed(error: Seq<char>) -> OutcomeView {
    OutcomeView::Failed { node: "planner"@, error }
}

/// A failure before any node ran.
pub open spec fn unstarted(error: Seq<char>) -> OutcomeView {
    OutcomeView::Failed { node: Seq::empty(), error }
}

/// What the answer of a planner leads to: the agents, the workflow and the DAG, or
/// how the goal has failed.
pub open spec fn planned(entries: Seq<EntryView>, reply: Result<EnvelopeView, ErrorView>) -> Result<
    (Map<Seq<char>, AgentNodeView>, WorkflowView, Seq<DagNodeView>),
    OutcomeView,
> {
    match reply {
        Err(e) => Err(planner_failed(e.words())),
        Ok(env) => if env.kind == EnvelopeKind::Error {
            Err(planner_failed(json::json_text(env.payload)))
        } else {
            match planner_dag(env.payload) {
                Err(e) => Err(planner_failed(e.words())),
                Ok(v) => match dag::dag_of(v) {
                    Err(complaint) => Err(
                        planner_failed(
                            (ErrorView::WorkflowError { message: "invalid DAG JSON: "@ + complaint }).words(),
                        ),
                    ),
                    Ok(d) => match built(entries, d) {
                        Err(e) => Err(unstarted(e.words())),
                        Ok((agents, w)) => Ok((agents, w, d)),
                    },
                },
            }
        },
    }
}

/// What an execution is rebuilt to from what is stored with it, or how that fails.
pub open spec fn rebuilt(entries: Seq<EntryView>, v: StoreView, wid: Seq<char>) -> Result<
    (Map<Seq<char>, AgentNodeView>, WorkflowView),
    OutcomeView,
> {
    match v.row(wid) {
        None => Err(unstarted("no such execution '"@ + wid + "'"@)),
        Some(row) => match dag::stored_dag(row.record.workflow_spec) {
            Err(e) => Err(unstarted("unparseable stored DAG for '"@ + wid + "': "@ + e)),
            Ok(d) => match built(entries, d) {
                Err(e) => Err(unstarted(e.words())),
                Ok(x) => Ok(x),
            },
        },
    }
}

fn planner_failure(error: String) -> (r: Outcome)
    ensures
        r@ == planner_failed(error@),
{
    Outcome::Failed { node: "planner".to_string(), error }
}

fn unstarted_failure(error: String) -> (r: Outcome)
    ensures
        r@ == unstarted(error@),
{
    let node = String::new();
    assert(node@ =~= Seq::empty());
    Outcome::Failed { node, error }
}

impl Orchestrator {
    /// An orchestrator over registered instances and executions.
    pub fn new(store: RegistryStore, execution_store: ExecutionStore) -> (r: Orchestrator)
        ensures
            r.store == store,
            r.execution_store == execution_store,
    {
        Orchestrator { store, execution_store }
    }

    /// The planner to ask for a DAG, and the message for it: the first healthy
    /// instance that offers `plan`, and the goal as it is.
    pub fn plan_request(&self, goal: &Json, envelope_id: u128) -> (r: Result<
        (RegistrationEntry, Envelope),
        Outcome,
    >)
        ensures
            match r {
                Ok((planner, envelope)) => capable(self.store@.entries, "plan"@) == Some(planner@)
                    && envelope@ == (EnvelopeView {
                    id: envelope_id,
                    kind: EnvelopeKind::Invoke,
                    payload: goal@,
                    metadata: Map::empty(),
                }),
                Err(o) => capable(self.store@.entries, "plan"@) is None && o@ == planner_failed(
                    (ErrorView::RegistryError { message: no_capable("plan"@) }).words(),
                ),
            },
    {
        match resolve_capability(&self.store, "plan") {
            Err(e) => Err(planner_failure(e.to_string())),
            Ok(planner) => {
                let envelope = Envelope::invoke(envelope_id, goal.clone(), TextMap::new());
                assert(envelope@.metadata =~= Map::empty());
                Ok((planner, envelope))
            },
        }
    }

    /// Take in the answer of a planner.
    pub fn on_plan(&self, reply: Result<Envelope, AetherError>) -> (r: Result<PlannedRun, Outcome>)
        ensures
            match r {
                Ok(run) => planned(self.store@.entries, supervisor::reply_view(reply)) matches Ok((agents, w, d))
                    && run.registry@ == agents && run.workflow@ == w && run.spec_text@ == json::json_text(
                    dag::dag_json(d),
                ) && dag::stored_dag(run.spec_text@) == Ok::<Seq<DagNodeView>, Seq<char>>(d),
                Err(o) => planned(self.store@.entries, supervisor::reply_view(reply)) matches Err(x) && x == o@,
            },
    {
        let env = match reply {
            Err(e) => return Err(planner_failure(e.to_string())),
            Ok(env) => env,
        };
        if env.kind == EnvelopeKind::Error {
            return Err(planner_failure(env.payload.to_text()));
        }
        let value = match dag_from_planner_result(&env.payload) {
            Err(e) => return Err(planner_failure(e.to_string())),
            Ok(v) => v,
        };
        let dag = match DagSpec::parse(&value) {
            Err(e) => return Err(planner_failure(e.to_string())),
            Ok(d) => d,
        };
        match build_registry_and_workflow(&self.store, &dag) {
            Err(e) => Err(unstarted_failure(e.to_string())),
            Ok((registry, workflow)) => Ok(
                PlannedRun { registry, workflow, spec_text: dag.to_text() },
            ),
        }
    }

    /// The agents and the workflow of a stored execution, resolved against the
    /// instances that are registered now.
    pub fn rebuild(&self, workflow_id: u128) -> (r: Result<(AgentRegistry, Workflow), Outcome>)
        ensures
            match r {
                Ok((agents, w)) => rebuilt(
                    self.store@.entries,
                    self.execution_store@,
                    ids::id_text(workflow_id),
                ) matches Ok(x) && x == (agents@, w@),
                Err(o) => rebuilt(
                    self.store@.entries,
                    self.execution_store@,
                    ids::id_text(workflow_id),
                ) matches Err(x) && x == o@,
            },
    {
        let wid = ids::text_of_id(workflow_id);
        let record = match self.execution_store.load_execution(wid.as_str()) {
            Some((record, _)) => record,
            None => {
                let mut error = text::cat("no such execution '", wid.as_str());
                error.append("'");
                return Err(unstarted_failure(error));
            },
        };
        let parsed = match Json::parse(record.workflow_spec.as_str()) {
            Err(e) => Err(e),
            Ok(v) => match DagSpec::parse(&v) {
                Err(e) => Err(e.to_string()),
                Ok(d) => Ok(d),
            },
        };
        let dag = match parsed {
            Ok(d) => d,
            Err(e) => {
                let mut error = text::cat("unparseable stored DAG for '", wid.as_str());
                error.append("': ");
                error.append(e.as_str());
                return Err(unstarted_failure(error));
            },
        };
        match build_registry_and_workflow(&self.store, &dag) {
            Err(e) => Err(unstarted_failure(e.to_string())),
            Ok(x) => Ok(x),
        }
    }

    /// The executions that run or are suspended: those that may be recovered.
    pub fn recoverable(&self) -> (r: Vec<ExecutionRecord>)
        ensures
            execution_store::record_views(r@) == self.execution_store@.active(),
    {
        self.execution_store.list_active()
    }

    /// The first node of an execution that waits for a decision.
    pub fn suspended_node(&self, workflow_id: u128) -> (r: Option<String>)
        ensures
            text::opt(r) == waiting_node(self.execution_store@, ids::id_text(workflow_id)),
    {
        let wid = ids::text_of_id(workflow_id);
        let nodes = match self.execution_store.load_execution(wid.as_str()) {
            None => return None,
            Some((_, nodes)) => nodes,
        };
        let ghost s = execution_store::node_views(nodes@);
        let ghost p = |n: NodeView| n.status == NodeStatus::Suspended;
        let mut i: usize = 0;
        while i < nodes.len()
            invariant
                i <= nodes@.len(),
                s == execution_store::node_views(nodes@),
                p == (|n: NodeView| n.status == NodeStatus::Suspended),
                wid@ == ids::id_text(workflow_id),
                self.execution_store@.row(wid@) is Some,
                s == self.execution_store@.nodes_of(wid@),
                forall|j: int| 0 <= j < i ==> !p(#[trigger] s[j]),
            decreases nodes@.len() - i,
        {
            assert(s[i as int] == nodes@[i as int]@);
            if nodes[i].status == NodeStatus::Suspended {
                proof {
                    execution_store::lemma_first_at(s, p, i as int);
                }
                return Some(nodes[i].node_id.clone());
            }
            i += 1;
        }
        proof {
            execution_store::lemma_first_at(s, p, i as int);
        }
        None
    }

    /// Fail every parked node whose gate deadline lies before `now`.
    pub fn expire_gates(&mut self, now: Instant) -> (r: Vec<(String, String)>)
        requires
            now.usable(),
        ensures
            execution_store::pair_views(r@) == old(self).execution_store@.overdue_pairs(now.words()),
            final(self).execution_store@ == old(self).execution_store@.expired(now.words()),
            final(self).store == old(self).store,
    {
        let t = now.to_text();
        self.execution_store.expire_gates(t.as_str())
    }

    /// The capabilities that healthy instances offer, sorted, each once.
    pub fn list_capabilities(&self) -> (r: Vec<String>)
        ensures
            text_map::ascending(text::strs(r@)),
            forall|c: Seq<char>| #[trigger]
                text::strs(r@).contains(c) <==> is_offered(self.store@.entries, c),
            text::strs(r@) == offered(self.store@.entries),
    {
        let ghost es = self.store@.entries;
        let mut found: TextMap<bool> = TextMap::new();
        let mut i: usize = 0;
        while i < self.store.entries.len()
            invariant
                i <= self.store.entries@.len(),
                es == self.store@.entries,
                forall|c: Seq<char>| #[trigger]
                    found@.dom().contains(c) <==> is_offered(es.take(i as int), c),
            decreases self.store.entries@.len() - i,
        {
            assert(es[i as int] == self.store.entries@[i as int]@);
            let ghost caps = es[i as int].capabilities;
            if self.store.entries[i].status == RegistryStatus::Healthy {
                let mut k: usize = 0;
                while k < self.store.entries[i].capabilities.len()
                    invariant
                        i < self.store.entries@.len(),
                        es == self.store@.entries,
                        es[i as int] == self.store.entries@[i as int]@,
                        caps == es[i as int].capabilities,
                        k <= self.store.entries@[i as int].capabilities@.len(),
                        forall|c: Seq<char>| #[trigger]
                            found@.dom().contains(c) <==> is_offered(es.take(i as int), c)
                                || caps.take(k as int).contains(c),
                    decreases self.store.entries@[i as int].capabilities@.len() - k,
                {
                    proof {
                        text::lemma_take_more(caps, k + 1);
                    }
                    found.insert(self.store.entries[i].capabilities[k].clone(), true);
                    k += 1;
                }
                assert(caps.take(caps.len() as int) =~= caps);
            }
            proof {
                lemma_offered_more(es, i + 1);
            }
            i += 1;
        }
        assert(es.take(es.len() as int) =~= es);
        let n: usize = found.len();
        let mut out: Vec<String> = Vec::new();
        let mut j: usize = 0;
        while j < n
            invariant
                j <= n,
                n == found.keys().len(),
                out@.len() == j,
                forall|a: int| 0 <= a < j ==> (#[trigger] out@[a])@ == found.keys()[a],
            decreases n - j,
        {
            let (k, _) = found.at(j);
            out.push(k.clone());
            j += 1;
        }
        proof {
            assert(text::strs(out@) =~= found.keys());
            assert forall|c: Seq<char>| #[trigger] text::strs(out@).contains(c) <==> is_offered(es, c) by {
                assert(found.keys().to_set().contains(c) <==> found.keys().contains(c));
                assert(found@.dom().contains(c) <==> is_offered(es, c));
            }
            assert(lists_offered(es, text::strs(out@)));
            lemma_offered_unique(es, text::strs(out@), offered(es));
        }
        out
    }
}

/// Whether `s` lists the capabilities that healthy instances offer, sorted.
pub open spec fn lists_offered(entries: Seq<EntryView>, s: Seq<Seq<char>>) -> bool {
    text_map::ascending(s) && forall|c: Seq<char>| #[trigger]
        s.contains(c) <==> is_offered(entries, c)
}

/// The capabilities that healthy instances offer, sorted, each once.
pub open spec fn offered(entries: Seq<EntryView>) -> Seq<Seq<char>> {
    choose|s: Seq<Seq<char>>| lists_offered(entries, s)
}

/// There is one such list.
pub proof fn lemma_offered_unique(entries: Seq<EntryView>, a: Seq<Seq<char>>, b: Seq<Seq<char>>)
    requires
        lists_offered(entries, a),
        lists_offered(entries, b),
    ensures
        a == b,
{
    assert(a.to_set() =~= b.to_set()) by {
        assert forall|c: Seq<char>| a.to_set().contains(c) <==> b.to_set().contains(c) by {
            assert(a.contains(c) <==> is_offered(entries, c));
            assert(b.contains(c) <==> is_offered(entries, c));
        }
    }
    text_map::lemma_ascending_unique(a, b);
}

/// Whether a healthy instance offers a capability.
pub open spec fn is_offered(entries: Seq<EntryView>, c: Seq<char>) -> bool {
    exists|i: int|
        0 <= i < entries.len() && (#[trigger] entries[i]).status == RegistryStatus::Healthy
            && entries[i].capabilities.contains(c)
}

proof fn lemma_offered_more(es: Seq<EntryView>, n: int)
    requires
        0 < n <= es.len(),
    ensures
        forall|c: Seq<char>| #[trigger]
            is_offered(es.take(n), c) <==> is_offered(es.take(n - 1), c) || (es[n - 1].status
                == RegistryStatus::Healthy && es[n - 1].capabilities.contains(c)),
{
    assert forall|c: Seq<char>| #[trigger]
        is_offered(es.take(n), c) <==> is_offered(es.take(n - 1), c) || (es[n - 1].status
            == RegistryStatus::Healthy && es[n - 1].capabilities.contains(c)) by {
        if is_offered(es.take(n), c) {
            let i = choose|i: int|
                0 <= i < es.take(n).len() && (#[trigger] es.take(n)[i]).status == RegistryStatus::Healthy
                    && es.take(n)[i].capabilities.contains(c);
            if i < n - 1 {
                assert(es.take(n - 1)[i] == es.take(n)[i]);
            }
        }
        if is_offered(es.take(n - 1), c) {
            let i = choose|i: int|
                0 <= i < es.take(n - 1).len() && (#[trigger] es.take(n - 1)[i]).status
                    == RegistryStatus::Healthy && es.take(n - 1)[i].capabilities.contains(c);
            assert(es.take(n)[i] == es.take(n - 1)[i]);
        }
        assert(es.take(n)[n - 1] == es[n - 1]);
    }
}

/// The first node of an execution that waits for a decision.
pub open spec fn waiting_node(v: StoreView, wid: Seq<char>) -> Option<Seq<char>> {
    if v.row(wid) is None {
        None
    } else {
        match execution_store::first(
            v.nodes_of(wid),
            |n: NodeView| n.status == NodeStatus::Suspended,
        ) {
            Some(n) => Some(n.node_id),
            None => None,
        }
    }
}

/// A run that was entered with its plan can be rebuilt: its workflow comes out of the
/// instances that are registered by then as it would for the plan itself.
pub proof fn law_planned_run_can_be_rebuilt(
    entries: Seq<EntryView>,
    v: StoreView,
    wid: Seq<char>,
    spec_text: Seq<char>,
    d: Seq<DagNodeView>,
    payload: Seq<char>,
    names: Seq<Seq<char>>,
    now: Seq<char>,
)
    requires
        !v.has(wid),
        dag::stored_dag(spec_text) == Ok::<Seq<DagNodeView>, Seq<char>>(d),
    ensures
        rebuilt(entries, v.created(wid, spec_text, payload, names, now), wid) == (match built(
            entries,
            d,
        ) {
            Ok(x) => Ok(x),
            Err(e) => Err(unstarted(e.words())),
        }),
{
    let c = v.created(wid, spec_text, payload, names, now);
    let p = |r: execution_store::RowView| r.record.workflow_id == wid;
    assert forall|i: int| 0 <= i < v.executions.len() implies !p(#[trigger] c.executions[i]) by {
        assert(c.executions[i] == v.executions[i]);
    }
    execution_store::lemma_first_at(c.executions, p, v.executions.len() as int);
}

/// What an execution is rebuilt to depends on its plan alone.
pub proof fn law_rebuilding_needs_the_plan_alone(
    entries: Seq<EntryView>,
    u: StoreView,
    v: StoreView,
    wid: Seq<char>,
)
    requires
        execution_laws::same_plan(u, v, wid),
    ensures
        rebuilt(entries, u, wid) == rebuilt(entries, v, wid),
{
}

} // verus!

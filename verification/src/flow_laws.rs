//! Workflows and plans by their edges and nodes, and the words for what is wrong.

use vstd::prelude::*;
use vstd::string::*;
use crate::clock;
use crate::clock::Instant;
use crate::dag;
use crate::dag::DagNodeView;
use crate::error::{ErrorView, OutcomeView};
use crate::execution_store::ExecutionView;
use crate::graph;
use crate::ids;
use crate::instance_manager;
use crate::job::{JobView, JobsView};
use crate::json;
use crate::json::JsonView;
use crate::jsonrpc;
use crate::jsonrpc::RequestView;
use crate::supervisor;
use crate::text;
use crate::types::AgentNodeView;
use crate::wire_laws;
use crate::workflow;
use crate::workflow::{EdgeView, PredicateView, WorkflowView};

verus! {

/// An edge without a condition is always followed; one with a test, exactly where the
/// test says yes; one to an agent of a router, exactly where the agent offers the
/// capability that was read.
pub proof fn law_when_an_edge_is_followed(e: EdgeView, tests: Seq<bool>, capabilities: Seq<Seq<char>>)
    ensures
        e.when is None ==> e.fires(tests, capabilities),
        e.when matches Some(PredicateView::Test { id }) ==> (e.fires(tests, capabilities) <==> id < tests.len()
            && tests[id as int]),
        e.when matches Some(PredicateView::Serves { extractor, capabilities: offered }) ==> (e.fires(
            tests,
            capabilities,
        ) <==> extractor < capabilities.len() && exists|i: int|
            0 <= i < offered.len() && #[trigger] offered[i] == capabilities[extractor as int]),
{
}

/// The edges out of a node are those that it is the source of, and the edges into it
/// those that lead to it.
pub proof fn law_edges_of_a_node(w: WorkflowView, x: Seq<char>, e: EdgeView)
    ensures
        w.outgoing(x).contains(e) <==> e.from == x && w.edges.contains(e),
        w.incoming(x).contains(e) <==> e.to == x && w.edges.contains(e),
        w.outgoing(x).len() <= w.edges.len(),
        w.incoming(x).len() <= w.edges.len(),
{
    let p = |e: EdgeView| e.from == x;
    let q = |e: EdgeView| e.to == x;
    lemma_filtered(w.edges, p, e);
    lemma_filtered(w.edges, q, e);
    w.edges.lemma_filter_len(p);
    w.edges.lemma_filter_len(q);
}

proof fn lemma_filtered<A>(s: Seq<A>, p: spec_fn(A) -> bool, x: A)
    ensures
        s.filter(p).contains(x) <==> s.contains(x) && p(x),
{
    if s.filter(p).contains(x) {
        s.lemma_filter_contains_rev(p, x);
        let k = choose|k: int| 0 <= k < s.filter(p).len() && s.filter(p)[k] == x;
        s.lemma_filter_pred(p, k);
    }
    if s.contains(x) && p(x) {
        let i = choose|i: int| 0 <= i < s.len() && s[i] == x;
        s.lemma_filter_contains(p, i);
    }
}

/// An entry that is named is an entry, once. It takes the place of one that was taken
/// from an edge, and stands behind those that were named. The edges stay.
pub proof fn law_entry_is_named(w: WorkflowView, auto: bool, x: Seq<char>)
    ensures
        ({
            let u = workflow::with_entry(w, auto, x);
            &&& u.edges == w.edges
            &&& u.entries.contains(x)
            &&& auto ==> u.entries.len() == 1 && u.entries[0] == x
            &&& !auto && w.entries.contains(x) ==> u.entries == w.entries
            &&& !auto && !w.entries.contains(x) ==> {
                &&& u.entries.len() == w.entries.len() + 1
                &&& u.entries.last() == x
                &&& forall|i: int| 0 <= i < w.entries.len() ==> #[trigger] u.entries[i] == w.entries[i]
            }
        }),
{
    let u = workflow::with_entry(w, auto, x);
    if auto {
        assert(u.entries[0] == x);
    } else if !w.entries.contains(x) {
        assert(u.entries[w.entries.len() as int] == x);
    }
}

/// An edge that is added stands behind the others, and its source is the entry where
/// there was none.
pub proof fn law_edge_is_added(w: WorkflowView, e: EdgeView)
    ensures
        ({
            let u = workflow::with_edge(w, e);
            &&& u.edges.len() == w.edges.len() + 1
            &&& u.edges.last() == e
            &&& forall|i: int| 0 <= i < w.edges.len() ==> #[trigger] u.edges[i] == w.edges[i]
            &&& w.entries.len() > 0 ==> u.entries == w.entries
            &&& w.entries.len() == 0 ==> u.entries.len() == 1 && u.entries[0] == e.from
        }),
{
}

/// A router has an edge to each agent, in their order, that is followed where the agent
/// offers what the extractor reads; it is the entry where there was none.
pub proof fn law_routes(w: WorkflowView, router: Seq<char>, extractor: usize, agents: Seq<AgentNodeView>, n: nat)
    requires
        n <= agents.len(),
    ensures
        ({
            let u = workflow::with_routes(w, router, extractor, agents, n);
            &&& u.edges.len() == w.edges.len() + n
            &&& forall|i: int| 0 <= i < w.edges.len() ==> #[trigger] u.edges[i] == w.edges[i]
            &&& forall|i: int|
                w.edges.len() <= i < u.edges.len() ==> (#[trigger] u.edges[i]).from == router && u.edges[i].to
                    == agents[i - w.edges.len()].name && u.edges[i].when == Some(
                    PredicateView::Serves {
                        extractor,
                        capabilities: agents[i - w.edges.len()].capabilities,
                    },
                )
            &&& w.entries.len() > 0 || n == 0 ==> u.entries == w.entries
            &&& w.entries.len() == 0 && n > 0 ==> u.entries == seq![router]
        }),
    decreases n,
{
    if n > 0 {
        law_routes(w, router, extractor, agents, (n - 1) as nat);
    }
}

/// The words for each error.
pub proof fn law_words_of_errors(node: Seq<char>, message: Seq<char>, max: usize)
    ensures
        (ErrorView::AgentFailed { node, message }).words() == "agent '"@ + node + "' failed: "@ + message,
        (ErrorView::AgentTimeout { node }).words() == "agent '"@ + node + "' timed out"@,
        (ErrorView::TransportError { node, message }).words() == "transport error on '"@ + node + "': "@ + message,
        (ErrorView::RegistryError { message }).words() == "registry error: "@ + message,
        (ErrorView::WorkflowError { message }).words() == "workflow error: "@ + message,
        workflow::cycle_error() == (ErrorView::WorkflowError { message: "workflow graph contains a cycle"@ }),
        workflow::no_edges_error() == (ErrorView::WorkflowError { message: "workflow has no edges"@ }),
        workflow::unknown_node_error(node) == (ErrorView::RegistryError {
            message: "unknown node '"@ + node + "' referenced in workflow"@,
        }),
        instance_manager::queue_full(node, max) == (ErrorView::WorkflowError {
            message: "singleton '"@ + node + "' queue full (max "@ + text::decimal_text(max as nat) + ")"@,
        }),
        supervisor::vanished() == (ErrorView::WorkflowError { message: "execution vanished"@ }),
        supervisor::refusal(node) == (OutcomeView::Failed {
            node: Seq::empty(),
            error: "execution '"@ + node + "' is already being driven by another driver"@,
        }),
{
}

/// How an error ends a run: the time that ran out, and what an agent or the way to it
/// said, are told of their node; anything else of no node, in the words of the error.
pub proof fn law_errors_end_runs(node: Seq<char>, message: Seq<char>)
    ensures
        supervisor::failure_outcome(ErrorView::AgentTimeout { node }) == (OutcomeView::Timeout { node }),
        supervisor::failure_outcome(ErrorView::AgentFailed { node, message }) == (OutcomeView::Failed {
            node,
            error: message,
        }),
        supervisor::failure_outcome(ErrorView::TransportError { node, message }) == (OutcomeView::Failed {
            node,
            error: message,
        }),
        supervisor::failure_outcome(ErrorView::RegistryError { message }) == (OutcomeView::Failed {
            node: Seq::empty(),
            error: "registry error: "@ + message,
        }),
        supervisor::failure_outcome(ErrorView::WorkflowError { message }) == (OutcomeView::Failed {
            node: Seq::empty(),
            error: "workflow error: "@ + message,
        }),
        supervisor::failure_words(ErrorView::AgentTimeout { node }) == "agent '"@ + node + "' timed out"@,
        supervisor::failure_words(ErrorView::AgentFailed { node, message }) == message,
        supervisor::failure_words(ErrorView::TransportError { node, message }) == message,
        supervisor::failure_words(ErrorView::RegistryError { message }) == "registry error: "@ + message,
        supervisor::failure_words(ErrorView::WorkflowError { message }) == "workflow error: "@ + message,
{
}

/// Whether the id of a node is that of an earlier one.
pub open spec fn is_repeated(d: Seq<DagNodeView>, i: int) -> bool {
    exists|j: int| 0 <= j < i && (#[trigger] d[j]).id == d[i].id
}

/// Whether something is wrong with a node, whatever it depends on.
pub open spec fn is_faulty(d: Seq<DagNodeView>, i: int) -> bool {
    is_repeated(d, i) || (d[i].capability is None && d[i].agent is None)
}

proof fn lemma_node_fault_stays(d: Seq<DagNodeView>, n: nat, m: nat)
    requires
        n <= m,
        dag::node_faults(d, n) is Some,
    ensures
        dag::node_faults(d, m) == dag::node_faults(d, n),
    decreases m,
{
    if n < m {
        lemma_node_fault_stays(d, n, (m - 1) as nat);
    }
}

proof fn lemma_link_fault_stays(d: Seq<DagNodeView>, n: nat, m: nat)
    requires
        n <= m,
        dag::link_faults(d, n) is Some,
    ensures
        dag::link_faults(d, m) == dag::link_faults(d, n),
    decreases m,
{
    if n < m {
        lemma_link_fault_stays(d, n, (m - 1) as nat);
    }
}

/// What is said of a DAG that cannot be built: that it has no nodes; or, of the first
/// node with such a fault, that its id is that of an earlier one, or that it names
/// neither a capability nor an agent.
pub proof fn law_first_fault_of_a_dag(d: Seq<DagNodeView>, i: int)
    ensures
        d.len() == 0 ==> dag::fault(d) == Some("DAG has no nodes"@),
        0 <= i < d.len() && is_faulty(d, i) && (forall|j: int|
            0 <= j < i ==> !#[trigger] is_faulty(d, j)) ==> dag::fault(d) == Some(
            if is_repeated(d, i) {
                "duplicate node id '"@ + d[i].id + "'"@
            } else {
                "node '"@ + d[i].id + "' has neither capability nor agent"@
            },
        ),
{
    if 0 <= i < d.len() && is_faulty(d, i) && (forall|j: int| 0 <= j < i ==> !#[trigger] is_faulty(d, j)) {
        dag::lemma_node_faults(d, i as nat);
        assert forall|j: int| 0 <= j < i implies #[trigger] dag::node_fault(d, j) is None by {
            assert(!is_faulty(d, j));
            if dag::repeats(d, j) {
                assert(is_repeated(d, j));
            }
        }
        assert(dag::node_faults(d, i as nat) is None);
        if is_repeated(d, i) {
            assert(dag::repeats(d, i));
        }
        if dag::repeats(d, i) {
            assert(is_repeated(d, i));
        }
        lemma_node_fault_stays(d, (i + 1) as nat, d.len());
    }
}

/// Whether a node of this id is there.
pub open spec fn is_planned(d: Seq<DagNodeView>, x: Seq<char>) -> bool {
    exists|j: int| 0 <= j < d.len() && (#[trigger] d[j]).id == x
}

/// Of a DAG whose nodes are right by themselves, the first dependency that is no node is
/// told, with the node that has it.
pub proof fn law_first_unknown_dependency(d: Seq<DagNodeView>, i: int, k: int)
    requires
        forall|j: int| 0 <= j < d.len() ==> !#[trigger] is_faulty(d, j),
        0 <= i < d.len(),
        0 <= k < d[i].depends_on.len(),
        !is_planned(d, d[i].depends_on[k]),
        forall|j: int, l: int|
            0 <= j < i && 0 <= l < d[j].depends_on.len() ==> is_planned(d, #[trigger] d[j].depends_on[l]),
        forall|l: int| 0 <= l < k ==> is_planned(d, #[trigger] d[i].depends_on[l]),
    ensures
        dag::fault(d) == Some(
            "node '"@ + d[i].id + "' depends on unknown node '"@ + d[i].depends_on[k] + "'"@,
        ),
{
    dag::lemma_node_faults(d, d.len());
    assert forall|j: int| 0 <= j < d.len() implies #[trigger] dag::node_fault(d, j) is None by {
        assert(!is_faulty(d, j));
        if dag::repeats(d, j) {
            assert(is_repeated(d, j));
        }
    }
    assert forall|x: Seq<char>| #[trigger] dag::is_id(d, x) <==> is_planned(d, x) by {
        if is_planned(d, x) {
            let j = choose|j: int| 0 <= j < d.len() && (#[trigger] d[j]).id == x;
            assert(d[j].id == x);
        }
        if dag::is_id(d, x) {
            let j = choose|j: int| 0 <= j < d.len() && (#[trigger] d[j]).id == x;
            assert(d[j].id == x);
        }
    }
    dag::lemma_link_faults(d, i as nat);
    assert forall|j: int, l: int| 0 <= j < i && 0 <= l < d[j].depends_on.len() implies dag::is_id(
        d,
        #[trigger] d[j].depends_on[l],
    ) by {
        assert(is_planned(d, d[j].depends_on[l]));
    }
    dag::lemma_dependency_faults(d, d[i], k as nat);
    assert forall|l: int| 0 <= l < k implies dag::is_id(d, #[trigger] d[i].depends_on[l]) by {
        assert(is_planned(d, d[i].depends_on[l]));
    }
    assert(!dag::is_id(d, d[i].depends_on[k]));
    assert(dag::dependency_faults(d, d[i], (k + 1) as nat) is Some);
    dag::lemma_dependency_stays(d, d[i], (k + 1) as nat, d[i].depends_on.len());
    assert(dag::link_faults(d, (i + 1) as nat) is Some);
    lemma_link_fault_stays(d, (i + 1) as nat, d.len());
}

/// The entries of a DAG are the ids of the nodes that depend on none; its terminals are
/// the ids of the nodes that none depends on.
pub proof fn law_ends_of_a_dag(d: Seq<DagNodeView>, x: Seq<char>)
    ensures
        dag::ids_of(dag::entry_nodes(d)).contains(x) <==> exists|i: int|
            0 <= i < d.len() && (#[trigger] d[i]).id == x && d[i].depends_on.len() == 0,
        dag::ids_of(dag::terminal_nodes(d)).contains(x) <==> is_planned(d, x) && forall|j: int, l: int|
            0 <= j < d.len() && 0 <= l < d[j].depends_on.len() ==> #[trigger] d[j].depends_on[l] != x,
{
    let p = |n: DagNodeView| n.depends_on.len() == 0;
    let q = |n: DagNodeView| !dag::depended_on(d, n.id);
    let a = dag::entry_nodes(d);
    let b = dag::terminal_nodes(d);
    if dag::ids_of(a).contains(x) {
        let k = choose|k: int| 0 <= k < a.len() && dag::ids_of(a)[k] == x;
        assert(a.contains(a[k]));
        lemma_filtered(d, p, a[k]);
        let i = choose|i: int| 0 <= i < d.len() && d[i] == a[k];
        assert(d[i].id == x);
    }
    if exists|i: int| 0 <= i < d.len() && (#[trigger] d[i]).id == x && d[i].depends_on.len() == 0 {
        let i = choose|i: int| 0 <= i < d.len() && (#[trigger] d[i]).id == x && d[i].depends_on.len() == 0;
        lemma_filtered(d, p, d[i]);
        assert(d.contains(d[i]));
        let k = choose|k: int| 0 <= k < a.len() && a[k] == d[i];
        assert(dag::ids_of(a)[k] == x);
    }
    let lonely = forall|j: int, l: int|
        0 <= j < d.len() && 0 <= l < d[j].depends_on.len() ==> #[trigger] d[j].depends_on[l] != x;
    assert(lonely <==> !dag::depended_on(d, x)) by {
        if dag::depended_on(d, x) {
            let j = choose|j: int| 0 <= j < d.len() && (#[trigger] d[j]).depends_on.contains(x);
            let l = choose|l: int| 0 <= l < d[j].depends_on.len() && d[j].depends_on[l] == x;
            assert(d[j].depends_on[l] == x);
        } else {
            assert forall|j: int, l: int| 0 <= j < d.len() && 0 <= l < d[j].depends_on.len() implies #[trigger]
                d[j].depends_on[l] != x by {
                assert(!d[j].depends_on.contains(x));
            }
        }
    }
    if dag::ids_of(b).contains(x) {
        let k = choose|k: int| 0 <= k < b.len() && dag::ids_of(b)[k] == x;
        assert(b.contains(b[k]));
        lemma_filtered(d, q, b[k]);
        let i = choose|i: int| 0 <= i < d.len() && d[i] == b[k];
        assert(d[i].id == x);
    }
    if is_planned(d, x) && lonely {
        let i = choose|i: int| 0 <= i < d.len() && (#[trigger] d[i]).id == x;
        lemma_filtered(d, q, d[i]);
        assert(d.contains(d[i]));
        let k = choose|k: int| 0 <= k < b.len() && b[k] == d[i];
        assert(dag::ids_of(b)[k] == x);
    }
}

/// A job that ends is done with its outcome, and is the newest of those that have
/// ended. While no more than 1024 have, all are kept; beyond that the oldest leaves,
/// and with it what was known of it.
pub proof fn law_job_ends(v: JobsView, id: u128, result: OutcomeView, other: u128)
    requires
        v.completed.len() <= 1024,
    ensures
        ({
            let u = v.ended(id, result);
            let full = v.completed.len() == 1024;
            &&& u.completed == if full {
                v.completed.drop_first().push(id)
            } else {
                v.completed.push(id)
            }
            &&& !(full && v.completed[0] == id) ==> u.jobs.dom().contains(id) && u.jobs[id] == (JobView::Done {
                result,
            })
            &&& other != id && !(full && v.completed[0] == other) ==> (u.jobs.dom().contains(other)
                <==> v.jobs.dom().contains(other)) && u.jobs[other] == v.jobs[other]
            &&& full ==> !u.jobs.dom().contains(v.completed[0])
        }),
{
    reveal_with_fuel(JobsView::trimmed, 3);
    let full = v.completed.push(id);
    if v.completed.len() == 1024 {
        assert(full.drop_first() =~= v.completed.drop_first().push(id));
        assert(full[0] == v.completed[0]);
    }
}

/// The seconds until a gate is due count as a signed number: one of the larger half of
/// the numbers lies before now.
pub proof fn law_time_goes_on(t: Instant, u: Instant, secs: u64)
    requires
        t.usable(),
    ensures
        t.after(secs).nanos == t.nanos,
        secs < 0x8000_0000_0000_0000 && t.reaches(secs) ==> t.after(secs).secs == t.secs + secs,
        secs >= 0x8000_0000_0000_0000 && t.reaches(secs) ==> t.after(secs).secs == t.secs + secs
            - 0x1_0000_0000_0000_0000,
        secs < 0x8000_0000_0000_0000 ==> (t.reaches(secs) <==> t.secs + secs <= 8_210_266_876_799),
        t.earlier(u) <==> t.secs < u.secs || (t.secs == u.secs && t.nanos < u.nanos),
        t.lease_end().secs == t.secs + 300 && t.lease_end().nanos == t.nanos,
{
}

/// A moment that can be read is written in UTC; any other text stays as it is.
pub proof fn law_deadline_in_utc(s: Seq<char>)
    ensures
        clock::rfc3339_parse(s) matches Some(p) ==> clock::in_utc(s) == clock::rfc3339(p.0, p.1),
        clock::rfc3339_parse(s) is None ==> clock::in_utc(s) == s,
{
}

/// The drawing of a workflow without edges has a line for each entry.
pub proof fn law_drawing_of_entries(entries: Seq<Seq<char>>, x: Seq<char>)
    ensures
        ({
            let w = WorkflowView { entries, edges: Seq::empty() };
            let u = WorkflowView { entries: entries.push(x), edges: Seq::empty() };
            &&& entries.len() == 0 ==> graph::graph_text(w) == "graph TD"@
            &&& graph::graph_text(u) == graph::graph_text(w) + "\n    "@ + x
        }),
{
    let w = WorkflowView { entries, edges: Seq::empty() };
    let u = WorkflowView { entries: entries.push(x), edges: Seq::empty() };
    lemma_entry_lines(w, u, entries.len());
    assert(graph::edge_lines(w.edges, 0) =~= Seq::<char>::empty());
    assert(u.entries[entries.len() as int] == x);
    assert(graph::graph_text(u) =~= graph::graph_text(w) + "\n    "@ + x);
    if entries.len() == 0 {
        assert(graph::graph_text(w) =~= "graph TD"@);
    }
}

proof fn lemma_entry_lines(w: WorkflowView, u: WorkflowView, n: nat)
    requires
        n <= w.entries.len() <= u.entries.len(),
        forall|i: int| 0 <= i < n ==> #[trigger] w.entries[i] == u.entries[i],
        forall|i: int|
            0 <= i < n ==> (graph::joined(w.edges, #[trigger] w.entries[i]) <==> graph::joined(
                u.edges,
                w.entries[i],
            )),
    ensures
        graph::entry_lines(w, n) == graph::entry_lines(u, n),
    decreases n,
{
    if n > 0 {
        lemma_entry_lines(w, u, (n - 1) as nat);
        assert(w.entries[n - 1] == u.entries[n - 1]);
    }
}

/// The drawing of a workflow has a line for each edge, in their order: a whole arrow for
/// one that is always followed, and a dotted one for one with a condition. An entry
/// that is an end of an edge has no line of its own.
pub proof fn law_drawing_of_edges(w: WorkflowView, e: EdgeView)
    requires
        forall|i: int|
            0 <= i < w.entries.len() ==> exists|k: int|
                0 <= k < w.edges.len() && ((#[trigger] w.edges[k]).from == #[trigger] w.entries[i]
                    || w.edges[k].to == w.entries[i]),
    ensures
        ({
            let u = WorkflowView { entries: w.entries, edges: w.edges.push(e) };
            let arrow = if e.when is None {
                " --> "@
            } else {
                " -.-> "@
            };
            graph::graph_text(u) == graph::graph_text(w) + ("\n    "@ + e.from + arrow + e.to)
        }),
        w.edges.len() == 0 ==> graph::graph_text(w) == "graph TD"@,
{
    let u = WorkflowView { entries: w.entries, edges: w.edges.push(e) };
    assert forall|i: int| 0 <= i < w.entries.len() implies graph::joined(w.edges, #[trigger] w.entries[i])
        && graph::joined(u.edges, w.entries[i]) by {
        let k = choose|k: int|
            0 <= k < w.edges.len() && ((#[trigger] w.edges[k]).from == w.entries[i] || w.edges[k].to
                == w.entries[i]);
        assert(u.edges[k] == w.edges[k]);
    }
    lemma_entry_lines(w, u, w.entries.len());
    lemma_edge_lines(w.edges, u.edges, w.edges.len());
    assert(u.edges[w.edges.len() as int] == e);
    assert(graph::graph_text(u) =~= graph::graph_text(w) + graph::edge_line(e));
    if w.edges.len() == 0 {
        if w.entries.len() > 0 {
            assert(graph::joined(w.edges, w.entries[0]));
        }
        assert(graph::graph_text(w) =~= "graph TD"@);
    }
}

proof fn lemma_edge_lines(a: Seq<EdgeView>, b: Seq<EdgeView>, n: nat)
    requires
        n <= a.len() <= b.len(),
        forall|i: int| 0 <= i < n ==> #[trigger] a[i] == b[i],
    ensures
        graph::edge_lines(a, n) == graph::edge_lines(b, n),
    decreases n,
{
    if n > 0 {
        lemma_edge_lines(a, b, (n - 1) as nat);
        assert(a[n - 1] == b[n - 1]);
    }
}

/// The ids of executions that are told are those whose text is an id, and no other.
pub proof fn law_ids_of_executions(s: Seq<ExecutionView>, n: nat, id: u128)
    requires
        n <= s.len(),
    ensures
        supervisor::active_ids(s, n).contains(id) <==> exists|i: int|
            0 <= i < n && ids::id_parse((#[trigger] s[i]).workflow_id) == ids::read(id),
    decreases n,
{
    if n > 0 {
        law_ids_of_executions(s, (n - 1) as nat, id);
        let before = supervisor::active_ids(s, (n - 1) as nat);
        let after = supervisor::active_ids(s, n);
        if before.contains(id) {
            let k = choose|k: int| 0 <= k < before.len() && before[k] == id;
            assert(after[k] == id);
        }
        if let Ok(x) = ids::id_parse(s[n - 1].workflow_id) {
            assert(after[before.len() as int] == x);
            if after.contains(id) && x != id {
                let k = choose|k: int| 0 <= k < after.len() && after[k] == id;
                assert(before[k] == id);
            }
        }
    }
}

/// A workflow is kept with its entries and the ends of its edges, in their order.
pub proof fn law_kept_workflow(w: WorkflowView)
    ensures
        ({
            let v = supervisor::workflow_json(w);
            &&& wire_laws::holds_texts(json::member(v, "entries"@), w.entries)
            &&& json::member(v, "edges"@) matches Some(JsonView::List(s)) && s.len() == w.edges.len()
                && forall|i: int|
                0 <= i < s.len() ==> json::member(#[trigger] s[i], "from"@) == Some(
                    JsonView::Text(w.edges[i].from),
                ) && json::member(s[i], "to"@) == Some(JsonView::Text(w.edges[i].to))
        }),
{
    reveal_strlit("entries");
    reveal_strlit("edges");
    reveal_strlit("from");
    reveal_strlit("to");
    assert("entries"@.len() == 7 && "edges"@.len() == 5 && "from"@.len() == 4 && "to"@.len() == 2);
}

/// An agent gets, with its task, the labels of its node and the three that tell the
/// execution and the node, and no others.
pub proof fn law_labels_of_a_task(labels: Map<Seq<char>, Seq<char>>, wid: Seq<char>, node: Seq<char>, k: Seq<char>)
    ensures
        supervisor::task_labels(labels, wid, node).dom().contains(k) <==> labels.dom().contains(k) || k
            == "trace_id"@ || k == "workflow_id"@ || k == "node"@,
{
}

/// The agents must be at hand before capabilities are told, and the executions before
/// gates expire or what can be recovered is told; nothing need be for any other
/// request, nor for a notification.
pub proof fn law_rows_at_hand(q: RequestView)
    ensures
        q.id is None || q.method != "tools/call"@ ==> jsonrpc::rows_for(q) is Nothing,
        ({
            let asks = |tool: Seq<char>|
                q.id is Some && q.method == "tools/call"@ && json::member(q.params, "name"@) == Some(
                    JsonView::Text(tool),
                );
            &&& asks("list_capabilities"@) ==> jsonrpc::rows_for(q) is Agents
            &&& asks("expire_gates"@) ==> jsonrpc::rows_for(q) is Executions
            &&& asks("list_recoverable"@) ==> jsonrpc::rows_for(q) is Executions
            &&& jsonrpc::rows_for(q) is Agents ==> asks("list_capabilities"@)
            &&& jsonrpc::rows_for(q) is Executions ==> asks("expire_gates"@) || asks("list_recoverable"@)
        }),
{
    reveal_strlit("list_capabilities");
    reveal_strlit("expire_gates");
    reveal_strlit("list_recoverable");
    assert("list_capabilities"@.len() == 17 && "expire_gates"@.len() == 12 && "list_recoverable"@.len() == 16);
}

/// A digit is written as itself, and a larger number as its tenth and its last digit.
pub proof fn law_decimal_digits(n: nat, s: Seq<char>)
    ensures
        n < 10 ==> text::decimal_text(n).len() == 1 && text::decimal_text(n)[0] as int == '0' as int + n,
        n >= 10 ==> text::decimal_text(n) == text::decimal_text(n / 10) + text::decimal_text(n % 10),
        s.len() == 0 ==> text::number_of(s) is None,
        (exists|i: int| 0 <= i < s.len() && !('0' <= #[trigger] s[i] && s[i] <= '9')) ==> text::number_of(s) is None,
{
    if n < 10 {
        reveal_strlit("0");
        reveal_strlit("1");
        reveal_strlit("2");
        reveal_strlit("3");
        reveal_strlit("4");
        reveal_strlit("5");
        reveal_strlit("6");
        reveal_strlit("7");
        reveal_strlit("8");
        reveal_strlit("9");
    } else {
        reveal_with_fuel(text::decimal_text, 2);
    }
    if exists|i: int| 0 <= i < s.len() && !('0' <= #[trigger] s[i] && s[i] <= '9') {
        let i = choose|i: int| 0 <= i < s.len() && !('0' <= #[trigger] s[i] && s[i] <= '9');
        assert(!text::is_digit(s[i]));
    }
}

proof fn lemma_filter_push<A>(s: Seq<A>, p: spec_fn(A) -> bool, x: A)
    ensures
        s.push(x).filter(p) == if p(x) {
            s.filter(p).push(x)
        } else {
            s.filter(p)
        },
{
    reveal(Seq::filter);
    assert(s.push(x).drop_last() =~= s);
}

/// The edges of a node stand in the order in which they were added, and the entries of a
/// DAG in the order of its nodes.
pub proof fn law_order_of_edges_and_entries(w: WorkflowView, e: EdgeView, x: Seq<char>, d: Seq<DagNodeView>, n: DagNodeView)
    ensures
        ({
            let u = WorkflowView { entries: w.entries, edges: w.edges.push(e) };
            &&& u.outgoing(x) == if e.from == x {
                w.outgoing(x).push(e)
            } else {
                w.outgoing(x)
            }
            &&& u.incoming(x) == if e.to == x {
                w.incoming(x).push(e)
            } else {
                w.incoming(x)
            }
            &&& dag::ids_of(dag::entry_nodes(d.push(n))) == if n.depends_on.len() == 0 {
                dag::ids_of(dag::entry_nodes(d)).push(n.id)
            } else {
                dag::ids_of(dag::entry_nodes(d))
            }
        }),
{
    lemma_filter_push(w.edges, |e: EdgeView| e.from == x, e);
    lemma_filter_push(w.edges, |e: EdgeView| e.to == x, e);
    lemma_filter_push(d, |n: DagNodeView| n.depends_on.len() == 0, n);
    let a = dag::entry_nodes(d);
    assert(dag::ids_of(a.push(n)) =~= dag::ids_of(a).push(n.id));
}

} // verus!

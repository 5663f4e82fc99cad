//! What holds of a run as a whole, from its start to its outcome.

use vstd::prelude::*;
use crate::clock::Instant;
use crate::dag;
use crate::dag::DagNodeView;
use crate::dag_laws;
use crate::envelope::{EnvelopeKind, EnvelopeView};
use crate::error::{ErrorView, OutcomeView};
use crate::events::EventView;
use crate::execution_laws;
use crate::execution_store;
use crate::execution_store::{ExecutionStatus, NodeStatus, NodeView, RowView, StoreView};
use crate::ids;
use crate::json;
use crate::json::JsonView;
use crate::orchestrator;
use crate::registry_store::EntryView;
use crate::resume;
use crate::supervisor;
use crate::supervisor::SupervisorView;
use crate::supervisor_laws;
use crate::workflow;
use crate::workflow::{EdgeView, WorkflowView};

verus! {

/// Whether every edge is followed, whatever a node answers.
pub open spec fn unconditional(w: WorkflowView) -> bool {
    forall|i: int| 0 <= i < w.edges.len() ==> (#[trigger] w.edges[i]).when is None
}

/// The names of the nodes that are to be handed out.
pub open spec fn names_of(tasks: Seq<(Seq<char>, JsonView)>) -> Seq<Seq<char>> {
    Seq::new(tasks.len(), |i: int| tasks[i].0)
}

/// Whether every pending node that waits for nothing more is one of `owed`: those
/// that are to be handed out, or have been and are not answered yet.
pub open spec fn nothing_lost(w: WorkflowView, nodes: Seq<NodeView>, owed: Set<Seq<char>>) -> bool {
    forall|x: Seq<char>| #[trigger]
        supervisor::stands(nodes, x, NodeStatus::Pending) && supervisor::unblocked(w, nodes, x)
            ==> owed.contains(x)
}

/// Whether every node at work is one of `owed`.
pub open spec fn work_in_hand(nodes: Seq<NodeView>, owed: Set<Seq<char>>) -> bool {
    forall|x: Seq<char>| #[trigger]
        supervisor::stands(nodes, x, NodeStatus::Running) ==> owed.contains(x)
}

/// Whether the rows are as they were, but for that of `node`.
pub open spec fn same_but(before: Seq<NodeView>, after: Seq<NodeView>, node: Seq<char>) -> bool {
    forall|x: Seq<char>|
        x != node ==> #[trigger] supervisor::node_in(after, x) == supervisor::node_in(before, x)
}

/// A node that waits for `node` stands at the end of an edge out of it.
proof fn lemma_edge_to(w: WorkflowView, node: Seq<char>, x: Seq<char>) -> (j: int)
    requires
        supervisor::upstream(w, x).contains(node),
    ensures
        0 <= j < w.outgoing(node).len(),
        w.outgoing(node)[j].to == x,
        w.edges.contains(w.outgoing(node)[j]),
{
    let deps = supervisor::upstream(w, x);
    let into = |e: EdgeView| e.to == x;
    let out = |e: EdgeView| e.from == node;
    let k = choose|k: int| 0 <= k < deps.len() && deps[k] == node;
    let e = w.incoming(x)[k];
    w.edges.lemma_filter_pred(into, k);
    w.edges.lemma_filter_contains_rev(into, e);
    let n = choose|n: int| 0 <= n < w.edges.len() && w.edges[n] == e;
    w.edges.lemma_filter_contains(out, n);
    choose|j: int| 0 <= j < w.outgoing(node).len() && w.outgoing(node)[j] == e
}

/// A node at the end of an edge out of `node` waits for `node`.
proof fn lemma_edge_from(w: WorkflowView, node: Seq<char>, j: int)
    requires
        0 <= j < w.outgoing(node).len(),
    ensures
        supervisor::upstream(w, w.outgoing(node)[j].to).contains(node),
        w.edges.contains(w.outgoing(node)[j]),
{
    let out = |e: EdgeView| e.from == node;
    let e = w.outgoing(node)[j];
    let x = e.to;
    let into = |e: EdgeView| e.to == x;
    w.edges.lemma_filter_pred(out, j);
    w.edges.lemma_filter_contains_rev(out, e);
    let n = choose|n: int| 0 <= n < w.edges.len() && w.edges[n] == e;
    w.edges.lemma_filter_contains(into, n);
    let k = choose|k: int| 0 <= k < w.incoming(x).len() && w.incoming(x)[k] == e;
    assert(supervisor::upstream(w, x)[k] == node);
}

/// A node that waits for nothing after a change, and does not wait for the node that
/// was changed, waited for nothing before.
proof fn lemma_unblocked_apart(
    w: WorkflowView,
    before: Seq<NodeView>,
    after: Seq<NodeView>,
    node: Seq<char>,
    x: Seq<char>,
)
    requires
        same_but(before, after, node),
        !supervisor::upstream(w, x).contains(node),
    ensures
        supervisor::unblocked(w, after, x) <==> supervisor::unblocked(w, before, x),
{
    let deps = supervisor::upstream(w, x);
    assert forall|i: int| 0 <= i < deps.len() implies supervisor::node_in(after, #[trigger] deps[i])
        == supervisor::node_in(before, deps[i]) by {
        assert(deps.contains(deps[i]));
    }
    if supervisor::unblocked(w, after, x) {
        assert forall|i: int| 0 <= i < deps.len() implies supervisor::stands(
            before,
            #[trigger] deps[i],
            NodeStatus::Done,
        ) by {
            assert(supervisor::stands(after, deps[i], NodeStatus::Done));
        }
    }
    if supervisor::unblocked(w, before, x) {
        assert forall|i: int| 0 <= i < deps.len() implies supervisor::stands(
            after,
            #[trigger] deps[i],
            NodeStatus::Done,
        ) by {
            assert(supervisor::stands(before, deps[i], NodeStatus::Done));
        }
    }
}

/// No node is lost by an answer: what the answered node has set free is handed out.
pub proof fn law_answer_loses_nothing(
    w: WorkflowView,
    before: Seq<NodeView>,
    after: Seq<NodeView>,
    node: Seq<char>,
    owed: Set<Seq<char>>,
    tests: Seq<bool>,
    capabilities: Seq<Seq<char>>,
)
    requires
        unconditional(w),
        nothing_lost(w, before, owed),
        same_but(before, after, node),
        supervisor::stands(after, node, NodeStatus::Done),
    ensures
        nothing_lost(
            w,
            after,
            owed.remove(node).union(
                names_of(
                    supervisor::newly_ready(
                        w,
                        after,
                        w.outgoing(node),
                        tests,
                        capabilities,
                        w.outgoing(node).len(),
                    ),
                ).to_set(),
            ),
        ),
{
    let edges = w.outgoing(node);
    let tasks = supervisor::newly_ready(w, after, edges, tests, capabilities, edges.len());
    assert forall|x: Seq<char>| #[trigger]
        supervisor::stands(after, x, NodeStatus::Pending) && supervisor::unblocked(w, after, x) implies owed.remove(
        node,
    ).union(names_of(tasks).to_set()).contains(x) by {
        if supervisor::upstream(w, x).contains(node) {
            let j = lemma_edge_to(w, node, x);
            let n = choose|n: int| 0 <= n < w.edges.len() && w.edges[n] == edges[j];
            assert(w.edges[n].when is None);
            supervisor_laws::law_no_unblocked_node_is_forgotten(
                w,
                after,
                edges,
                tests,
                capabilities,
                edges.len(),
                j,
            );
            let k = choose|k: int| 0 <= k < tasks.len() && tasks[k] == (x, supervisor::gathered(w, after, x));
            assert(names_of(tasks)[k] == x);
        } else {
            lemma_unblocked_apart(w, before, after, node, x);
            assert(supervisor::stands(before, x, NodeStatus::Pending));
        }
    }
}

/// No node is lost by handing a node out, nor by one that asks for a decision: what
/// waits for it goes on waiting.
pub proof fn law_waiting_loses_nothing(
    w: WorkflowView,
    before: Seq<NodeView>,
    after: Seq<NodeView>,
    node: Seq<char>,
    owed: Set<Seq<char>>,
)
    requires
        nothing_lost(w, before, owed),
        same_but(before, after, node),
        supervisor::stands(after, node, NodeStatus::Running) || supervisor::stands(
            after,
            node,
            NodeStatus::Suspended,
        ),
    ensures
        nothing_lost(w, after, owed.remove(node)),
{
    assert forall|x: Seq<char>| #[trigger]
        supervisor::stands(after, x, NodeStatus::Pending) && supervisor::unblocked(w, after, x) implies owed.remove(
        node,
    ).contains(x) by {
        let deps = supervisor::upstream(w, x);
        if deps.contains(node) {
            let i = choose|i: int| 0 <= i < deps.len() && deps[i] == node;
            assert(supervisor::stands(after, deps[i], NodeStatus::Done));
        }
        lemma_unblocked_apart(w, before, after, node, x);
        assert(supervisor::stands(before, x, NodeStatus::Pending));
    }
}

/// The row of a node is one of the rows.
pub proof fn lemma_row_of(nodes: Seq<NodeView>, x: Seq<char>) -> (j: int)
    requires
        supervisor::node_in(nodes, x) is Some,
    ensures
        0 <= j < nodes.len(),
        nodes[j] == supervisor::node_in(nodes, x)->0,
        nodes[j].node_id == x,
{
    execution_laws::lemma_first_is(nodes, |n: NodeView| n.node_id == x);
    choose|j: int| 0 <= j < nodes.len() && nodes[j] == supervisor::node_in(nodes, x)->0
}

/// A node that has a row is found.
pub proof fn lemma_found(nodes: Seq<NodeView>, j: int)
    requires
        0 <= j < nodes.len(),
    ensures
        supervisor::node_in(nodes, nodes[j].node_id) is Some,
{
    let x = nodes[j].node_id;
    execution_laws::lemma_first_is(nodes, |n: NodeView| n.node_id == x);
}

/// No node is lost by a recovery: it hands out every pending node that waits for
/// nothing more, and every such node that was at work.
pub proof fn law_recovery_loses_nothing(w: WorkflowView, v: StoreView, wid: Seq<char>)
    ensures
        nothing_lost(
            w,
            v.nodes_of(wid),
            names_of(supervisor::recovered_tasks(w, v, wid)).to_set(),
        ),
        work_is_unblocked(w, v.nodes_of(wid)) ==> work_in_hand(
            v.nodes_of(wid),
            names_of(supervisor::recovered_tasks(w, v, wid)).to_set(),
        ),
{
    lemma_recovery(
        w,
        v.nodes_of(wid),
        supervisor::stored_value(v.row(wid)->0.record.initial_payload),
    );
}

/// Whether every node at work waits for nothing.
pub open spec fn work_is_unblocked(w: WorkflowView, nodes: Seq<NodeView>) -> bool {
    forall|x: Seq<char>| #[trigger]
        supervisor::stands(nodes, x, NodeStatus::Running) ==> supervisor::unblocked(w, nodes, x)
}

proof fn lemma_recovery(w: WorkflowView, nodes: Seq<NodeView>, initial: JsonView)
    ensures
        nothing_lost(
            w,
            nodes,
            names_of(supervisor::recovered_upto(w, nodes, initial, nodes.len())).to_set(),
        ),
        work_is_unblocked(w, nodes) ==> work_in_hand(
            nodes,
            names_of(supervisor::recovered_upto(w, nodes, initial, nodes.len())).to_set(),
        ),
{
    let tasks = supervisor::recovered_upto(w, nodes, initial, nodes.len());
    assert forall|x: Seq<char>|
        (supervisor::stands(nodes, x, NodeStatus::Pending) || supervisor::stands(
            nodes,
            x,
            NodeStatus::Running,
        )) && #[trigger] supervisor::unblocked(w, nodes, x) implies names_of(tasks).to_set().contains(x) by {
        let j = lemma_row_of(nodes, x);
        supervisor_laws::law_recovery_forgets_nothing(w, nodes, initial, nodes.len(), j);
        let k = choose|k: int|
            0 <= k < tasks.len() && tasks[k] == (x, supervisor::recovered_input(w, nodes, initial, x));
        assert(names_of(tasks)[k] == x);
    }
}

/// Whether the nodes that wait for no other are entries, and only they.
pub open spec fn begins_at_its_entries(w: WorkflowView) -> bool {
    forall|x: Seq<char>| #[trigger]
        w.names(x) ==> (w.entries.contains(x) <==> supervisor::upstream(w, x).len() == 0)
}

/// Whether `names` are the nodes of a workflow, each once.
pub open spec fn lists_nodes(w: WorkflowView, names: Seq<Seq<char>>) -> bool {
    names.no_duplicates() && forall|x: Seq<char>| #[trigger] names.contains(x) <==> w.names(x)
}

/// No node is lost at the start: every node is pending, and those that wait for no
/// other are the entries.
pub proof fn law_start_loses_nothing(
    s: SupervisorView,
    id: u128,
    w: WorkflowView,
    payload: JsonView,
    spec_text: Seq<char>,
    names: Seq<Seq<char>>,
    now: Instant,
)
    requires
        !s.store.has(ids::id_text(id)),
        s.store.nodes_of(ids::id_text(id)).len() == 0,
        lists_nodes(w, names),
        begins_at_its_entries(w),
    ensures
        ({
            let nodes = supervisor::begun(s, id, w, payload, spec_text, names, now).store.nodes_of(
                ids::id_text(id),
            );
            &&& nothing_lost(w, nodes, names_of(supervisor::entry_tasks(w, payload)).to_set())
            &&& forall|x: Seq<char>|
                w.names(x) <==> #[trigger] supervisor::stands(nodes, x, NodeStatus::Pending)
            &&& forall|x: Seq<char>|
                w.names(x) <==> (#[trigger] supervisor::node_in(nodes, x)) is Some
        }),
{
    let wid = ids::id_text(id);
    let t = now.words();
    let made = s.store.created(wid, spec_text, json::json_text(payload), names, t);
    execution_laws::law_created_reads_back(s.store, wid, spec_text, json::json_text(payload), names, t);
    execution_store::lemma_row_with_row(
        made,
        wid,
        wid,
        |r: RowView|
            RowView {
                claimed_by: Some(s.driver),
                lease_expires_at: Some(now.lease_end().words()),
                ..r
            },
    );
    let nodes = supervisor::begun(s, id, w, payload, spec_text, names, now).store.nodes_of(wid);
    let fresh = Seq::new(names.len(), |i: int| NodeView::pending(wid, names[i], t));
    assert(nodes == fresh);
    assert forall|x: Seq<char>|
        (w.names(x) <==> #[trigger] supervisor::node_in(nodes, x) is Some) && (w.names(x)
            <==> supervisor::stands(nodes, x, NodeStatus::Pending)) by {
        if names.contains(x) {
            let i = choose|i: int| 0 <= i < names.len() && names[i] == x;
            assert(nodes[i].node_id == x);
            lemma_found(nodes, i);
        }
        if supervisor::node_in(nodes, x) is Some {
            let j = lemma_row_of(nodes, x);
            assert(names[j] == x);
            assert(names.contains(x));
        }
        assert(names.contains(x) <==> w.names(x));
    }
    assert forall|x: Seq<char>|
        w.names(x) <==> #[trigger] supervisor::stands(nodes, x, NodeStatus::Pending) by {
        assert(supervisor::node_in(nodes, x) is Some <==> w.names(x));
    }
    let owed = names_of(supervisor::entry_tasks(w, payload)).to_set();
    assert forall|x: Seq<char>| #[trigger]
        supervisor::stands(nodes, x, NodeStatus::Pending) && supervisor::unblocked(w, nodes, x) implies owed.contains(
        x,
    ) by {
        let deps = supervisor::upstream(w, x);
        if deps.len() > 0 {
            assert(supervisor::stands(nodes, deps[0], NodeStatus::Done));
            let j = lemma_row_of(nodes, deps[0]);
        }
        assert(w.entries.contains(x));
        let k = choose|k: int| 0 <= k < w.entries.len() && w.entries[k] == x;
        assert(names_of(supervisor::entry_tasks(w, payload))[k] == x);
    }
}

/// A walk of `k` pending nodes that ends at `x`.
proof fn lemma_pending_walk(w: WorkflowView, nodes: Seq<NodeView>, x: Seq<char>, k: nat) -> (p: Seq<Seq<char>>)
    requires
        forall|y: Seq<char>|
            (#[trigger] supervisor::node_in(nodes, y)) is Some ==> supervisor::stands(
                nodes,
                y,
                NodeStatus::Pending,
            ) || supervisor::stands(nodes, y, NodeStatus::Done),
        forall|i: int|
            0 <= i < w.edges.len() ==> supervisor::node_in(nodes, (#[trigger] w.edges[i]).from) is Some,
        nothing_lost(w, nodes, Set::empty()),
        supervisor::stands(nodes, x, NodeStatus::Pending),
        k > 0,
    ensures
        p.len() == k,
        p.last() == x,
        workflow::is_walk(w.edges, p),
        forall|i: int| 0 <= i < p.len() ==> supervisor::stands(nodes, #[trigger] p[i], NodeStatus::Pending),
    decreases k,
{
    if k == 1 {
        seq![x]
    } else {
        let q = lemma_pending_walk(w, nodes, x, (k - 1) as nat);
        assert(supervisor::stands(nodes, q[0], NodeStatus::Pending));
        assert(!supervisor::unblocked(w, nodes, q[0]));
        let deps = supervisor::upstream(w, q[0]);
        let i = choose|i: int|
            0 <= i < deps.len() && !supervisor::stands(nodes, #[trigger] deps[i], NodeStatus::Done);
        let y = deps[i];
        let into = |e: EdgeView| e.to == q[0];
        let e = w.incoming(q[0])[i];
        w.edges.lemma_filter_pred(into, i);
        w.edges.lemma_filter_contains_rev(into, e);
        let n = choose|n: int| 0 <= n < w.edges.len() && w.edges[n] == e;
        assert(supervisor::node_in(nodes, w.edges[n].from) is Some);
        assert(supervisor::stands(nodes, y, NodeStatus::Pending));
        assert(w.edges[n].from == y && w.edges[n].to == q[0]);
        assert(workflow::linked(w.edges, y, q[0]));
        let p = seq![y] + q;
        assert forall|a: int, b: int| 0 <= a && b == a + 1 && b < p.len() implies workflow::linked(
            w.edges,
            #[trigger] p[a],
            #[trigger] p[b],
        ) by {
            if a > 0 {
                assert(p[a] == q[a - 1] && p[b] == q[b - 1]);
            }
        }
        assert forall|a: int| 0 <= a < p.len() implies supervisor::stands(
            nodes,
            #[trigger] p[a],
            NodeStatus::Pending,
        ) by {
            if a > 0 {
                assert(p[a] == q[a - 1]);
            }
        }
        p
    }
}

/// A workflow without a cycle that has nothing left to hand out, and no node at work,
/// parked or failed, has run every node.
pub proof fn law_rest_means_done(w: WorkflowView, nodes: Seq<NodeView>, x: Seq<char>)
    requires
        !workflow::cyclic(w.edges),
        forall|y: Seq<char>|
            (#[trigger] supervisor::node_in(nodes, y)) is Some ==> supervisor::stands(
                nodes,
                y,
                NodeStatus::Pending,
            ) || supervisor::stands(nodes, y, NodeStatus::Done),
        forall|i: int|
            0 <= i < w.edges.len() ==> supervisor::node_in(nodes, (#[trigger] w.edges[i]).from) is Some,
        nothing_lost(w, nodes, Set::empty()),
        supervisor::node_in(nodes, x) is Some,
    ensures
        supervisor::stands(nodes, x, NodeStatus::Done),
{
    if supervisor::stands(nodes, x, NodeStatus::Pending) {
        let p = lemma_pending_walk(w, nodes, x, nodes.len() + 1);
        let u = Seq::new(nodes.len(), |i: int| nodes[i].node_id);
        assert forall|i: int| 0 <= i < p.len() implies u.contains(#[trigger] p[i]) by {
            assert(supervisor::stands(nodes, p[i], NodeStatus::Pending));
            let j = lemma_row_of(nodes, p[i]);
            assert(u[j] == p[i]);
        }
        if p.no_duplicates() {
            workflow::lemma_fits(p, u);
        }
        let (i, j) = choose|i: int, j: int|
            0 <= i < p.len() && 0 <= j < p.len() && i != j && p[i] == p[j];
        let a = if i < j {
            i
        } else {
            j
        };
        let b = if i < j {
            j
        } else {
            i
        };
        let c = p.subrange(a, b + 1);
        assert forall|m: int, n: int| 0 <= m && n == m + 1 && n < c.len() implies workflow::linked(
            w.edges,
            #[trigger] c[m],
            #[trigger] c[n],
        ) by {
            assert(c[m] == p[m + a] && c[n] == p[n + a]);
        }
        assert(workflow::is_walk(w.edges, c) && c.len() >= 2 && c[0] == c.last());
    }
}

/// Whether `m` holds the output of every node that no edge leaves, and nothing else.
pub open spec fn holds_every_end(w: WorkflowView, nodes: Seq<NodeView>, m: Map<Seq<char>, JsonView>) -> bool {
    forall|x: Seq<char>|
        {
            &&& #[trigger] m.dom().contains(x) <==> w.names(x) && !supervisor::is_source(w, x)
            &&& m.dom().contains(x) ==> m[x] == supervisor::output_in(nodes, x)
        }
}

/// A run that comes to rest with no node at work, parked or failed has run every node,
/// and its result holds the output of every node that no edge leaves, and nothing
/// else. A run with a node that has failed is left out: where a gate has expired, what
/// lay behind it has not run.
pub proof fn law_success_covers_every_end(s: SupervisorView, w: WorkflowView, id: u128, t: Seq<char>)
    requires
        !workflow::cyclic(w.edges),
        s.store.keyed(),
        s.store.row(ids::id_text(id)) is Some,
        rows_match(w, s.store.nodes_of(ids::id_text(id))),
        forall|x: Seq<char>|
            (#[trigger] supervisor::node_in(s.store.nodes_of(ids::id_text(id)), x)) is Some
                ==> supervisor::stands(s.store.nodes_of(ids::id_text(id)), x, NodeStatus::Pending)
                || supervisor::stands(s.store.nodes_of(ids::id_text(id)), x, NodeStatus::Done),
        outputs_kept(s.store.nodes_of(ids::id_text(id))),
        nothing_lost(w, s.store.nodes_of(ids::id_text(id)), Set::empty()),
    ensures
        ({
            let nodes = s.store.nodes_of(ids::id_text(id));
            let m = supervisor::terminal_outputs(w, nodes);
            &&& supervisor::finalized(s, w, id, t).1 == Ok::<OutcomeView, ErrorView>(
                OutcomeView::Success(JsonView::Object(m)),
            )
            &&& holds_every_end(w, nodes, m)
            &&& forall|x: Seq<char>| #[trigger]
                w.names(x) ==> supervisor::stands(nodes, x, NodeStatus::Done)
        }),
{
    let nodes = s.store.nodes_of(ids::id_text(id));
    let m = supervisor::terminal_outputs(w, nodes);
    assert forall|i: int| 0 <= i < w.edges.len() implies supervisor::node_in(
        nodes,
        (#[trigger] w.edges[i]).from,
    ) is Some by {
        assert(w.names(w.edges[i].from));
    }
    assert forall|x: Seq<char>| #[trigger] w.names(x) implies supervisor::stands(
        nodes,
        x,
        NodeStatus::Done,
    ) by {
        assert(supervisor::node_in(nodes, x) is Some);
        law_rest_means_done(w, nodes, x);
    }
    assert forall|i: int| 0 <= i < nodes.len() implies (#[trigger] nodes[i]).status != NodeStatus::Suspended by {
        lemma_found(nodes, i);
        assert(w.names(nodes[i].node_id));
        lemma_only_row(s.store, ids::id_text(id), i);
    }
    supervisor_laws::law_result_of_a_run(s, w, id, t, Seq::empty());
    assert forall|x: Seq<char>|
        {
            &&& #[trigger] m.dom().contains(x) <==> w.names(x) && !supervisor::is_source(w, x)
            &&& m.dom().contains(x) ==> m[x] == supervisor::output_in(nodes, x)
        } by {
        supervisor_laws::law_result_of_a_run(s, w, id, t, x);
        assert(supervisor::node_in(nodes, x) is Some <==> w.names(x));
    }
}

/// The result of a run whose nodes have all been run holds the output of every node
/// that no node of the plan depends on, and nothing else. A run with a node that has
/// failed is left out: where a gate has expired, what lay behind it has not run.
pub proof fn law_success_covers_every_terminal(
    entries: Seq<EntryView>,
    d: Seq<DagNodeView>,
    s: SupervisorView,
    id: u128,
    t: Seq<char>,
)
    requires
        orchestrator::built(entries, d) is Ok,
        s.store.keyed(),
        s.store.row(ids::id_text(id)) is Some,
        rows_match(orchestrator::built(entries, d)->Ok_0.1, s.store.nodes_of(ids::id_text(id))),
        forall|x: Seq<char>|
            (#[trigger] supervisor::node_in(s.store.nodes_of(ids::id_text(id)), x)) is Some
                ==> supervisor::stands(s.store.nodes_of(ids::id_text(id)), x, NodeStatus::Pending)
                || supervisor::stands(s.store.nodes_of(ids::id_text(id)), x, NodeStatus::Done),
        outputs_kept(s.store.nodes_of(ids::id_text(id))),
        nothing_lost(
            orchestrator::built(entries, d)->Ok_0.1,
            s.store.nodes_of(ids::id_text(id)),
            Set::empty(),
        ),
    ensures
        ({
            let w = orchestrator::built(entries, d)->Ok_0.1;
            let nodes = s.store.nodes_of(ids::id_text(id));
            let m = supervisor::terminal_outputs(w, nodes);
            &&& supervisor::finalized(s, w, id, t).1 == Ok::<OutcomeView, ErrorView>(
                OutcomeView::Success(JsonView::Object(m)),
            )
            &&& m.dom() == dag::ids_of(dag::terminal_nodes(d)).to_set()
            &&& forall|x: Seq<char>| #[trigger]
                m.dom().contains(x) ==> m[x] == supervisor::output_in(nodes, x)
            &&& forall|x: Seq<char>| #[trigger]
                dag::is_id(d, x) ==> supervisor::stands(nodes, x, NodeStatus::Done)
        }),
{
    let w = orchestrator::built(entries, d)->Ok_0.1;
    let nodes = s.store.nodes_of(ids::id_text(id));
    law_plan_begins_at_its_entries(entries, d);
    law_success_covers_every_end(s, w, id, t);
    lemma_ends_of_a_plan(entries, d, nodes, supervisor::terminal_outputs(w, nodes));
}

/// The ends of a plan are the nodes that no node depends on.
proof fn lemma_ends_of_a_plan(
    entries: Seq<EntryView>,
    d: Seq<DagNodeView>,
    nodes: Seq<NodeView>,
    m: Map<Seq<char>, JsonView>,
)
    requires
        orchestrator::built(entries, d) is Ok,
        holds_every_end(orchestrator::built(entries, d)->Ok_0.1, nodes, m),
    ensures
        m.dom() == dag::ids_of(dag::terminal_nodes(d)).to_set(),
{
    let w = orchestrator::built(entries, d)->Ok_0.1;
    law_plan_begins_at_its_entries(entries, d);
    assert forall|x: Seq<char>| m.dom().contains(x) <==> dag::ids_of(dag::terminal_nodes(d)).to_set().contains(x) by {
        orchestrator::law_plan_runs_the_dag(entries, d, x, x);
        lemma_terminal_ids(d, x);
        assert(w.names(x) <==> dag::is_id(d, x));
    }
    assert(m.dom() =~= dag::ids_of(dag::terminal_nodes(d)).to_set());
}

/// Whether there is a row for each node of a workflow, and for no other.
pub open spec fn rows_match(w: WorkflowView, nodes: Seq<NodeView>) -> bool {
    forall|x: Seq<char>| (#[trigger] supervisor::node_in(nodes, x)) is Some <==> w.names(x)
}

/// Whether every node that is done has its output.
pub open spec fn outputs_kept(nodes: Seq<NodeView>) -> bool {
    forall|x: Seq<char>|
        supervisor::stands(nodes, x, NodeStatus::Done) ==> (#[trigger] supervisor::node_in(
            nodes,
            x,
        ))->0.output is Some
}

/// The ids of the nodes that no node depends on.
proof fn lemma_terminal_ids(d: Seq<DagNodeView>, x: Seq<char>)
    ensures
        dag::ids_of(dag::terminal_nodes(d)).to_set().contains(x) <==> dag::is_id(d, x)
            && !dag::depended_on(d, x),
{
    let last = |n: DagNodeView| !dag::depended_on(d, n.id);
    let ends = dag::ids_of(dag::terminal_nodes(d));
    if ends.contains(x) {
        let k = choose|k: int| 0 <= k < ends.len() && ends[k] == x;
        d.lemma_filter_pred(last, k);
        d.lemma_filter_contains_rev(last, d.filter(last)[k]);
        let i = choose|i: int| 0 <= i < d.len() && d[i] == d.filter(last)[k];
        assert(d[i].id == x);
    }
    if dag::is_id(d, x) && !dag::depended_on(d, x) {
        let i = choose|i: int| 0 <= i < d.len() && (#[trigger] d[i]).id == x;
        d.lemma_filter_contains(last, i);
        let k = choose|k: int| 0 <= k < d.filter(last).len() && d.filter(last)[k] == d[i];
        assert(ends[k] == x);
    }
}

/// What a plan that is built is: its edges are followed whatever a node answers, it
/// begins at its entries, its nodes are those of the DAG, and it has no cycle.
pub proof fn law_plan_begins_at_its_entries(entries: Seq<EntryView>, d: Seq<DagNodeView>)
    requires
        orchestrator::built(entries, d) is Ok,
    ensures
        ({
            let w = orchestrator::built(entries, d)->Ok_0.1;
            &&& unconditional(w)
            &&& begins_at_its_entries(w)
            &&& !workflow::cyclic(w.edges)
            &&& dag::sound(d)
            &&& forall|x: Seq<char>| #[trigger] w.names(x) <==> dag::is_id(d, x)
        }),
{
    let w = orchestrator::built(entries, d)->Ok_0.1;
    dag::law_faultless_is_sound(d);
    orchestrator::lemma_mirrored_edges(d, d.len());
    assert forall|n: int| 0 <= n < w.edges.len() implies (#[trigger] w.edges[n]).when is None && dag::is_id(
        d,
        w.edges[n].from,
    ) && dag::is_id(d, w.edges[n].to) by {
        assert(w.edges.contains(w.edges[n]));
        let (i, k) = choose|i: int, k: int|
            0 <= i < d.len() && 0 <= k < d[i].depends_on.len() && w.edges[n] == (EdgeView {
                from: #[trigger] d[i].depends_on[k],
                to: d[i].id,
                when: None,
            });
        assert(dag::is_id(d, d[i].depends_on[k]));
        assert(d[i].id == w.edges[n].to);
    }
    assert forall|x: Seq<char>| #[trigger] w.names(x) <==> dag::is_id(d, x) by {
        orchestrator::law_plan_runs_the_dag(entries, d, x, x);
        if dag::is_id(d, x) {
            let i = choose|i: int| 0 <= i < d.len() && (#[trigger] d[i]).id == x;
            if d[i].depends_on.len() > 0 {
                let e = EdgeView { from: d[i].depends_on[0], to: d[i].id, when: None };
                assert(w.edges.contains(e));
                let n = choose|n: int| 0 <= n < w.edges.len() && w.edges[n] == e;
                assert(w.edges[n].to == x);
            }
        }
    }
    assert forall|x: Seq<char>| #[trigger] w.names(x) implies (w.entries.contains(x) <==> supervisor::upstream(
        w,
        x,
    ).len() == 0) by {
        orchestrator::law_plan_runs_the_dag(entries, d, x, x);
        assert(dag::is_id(d, x));
        let i = choose|i: int| 0 <= i < d.len() && (#[trigger] d[i]).id == x;
        let deps = supervisor::upstream(w, x);
        if deps.len() > 0 {
            let y = deps[0];
            assert(deps.contains(y));
            orchestrator::law_plan_runs_the_dag(entries, d, x, y);
        }
        if d[i].depends_on.len() > 0 {
            let y = d[i].depends_on[0];
            assert(d[i].depends_on.contains(y));
            orchestrator::law_plan_runs_the_dag(entries, d, x, y);
            assert(deps.contains(y));
        }
    }
    orchestrator::law_plan_runs_the_dag(entries, d, Seq::empty(), Seq::empty());
}

/// In a store in which no two nodes of an execution share an id, the node found
/// under the id of a row is that row.
pub proof fn lemma_only_row(v: StoreView, wid: Seq<char>, i: int)
    requires
        v.keyed(),
        0 <= i < v.nodes_of(wid).len(),
    ensures
        supervisor::node_in(v.nodes_of(wid), v.nodes_of(wid)[i].node_id) == Some(v.nodes_of(wid)[i]),
{
    let nodes = v.nodes_of(wid);
    let x = nodes[i].node_id;
    let q = |n: NodeView| n.workflow_id == wid;
    lemma_found(nodes, i);
    let j = lemma_row_of(nodes, x);
    v.nodes.lemma_filter_pred(q, i);
    v.nodes.lemma_filter_pred(q, j);
    v.nodes.lemma_filter_contains_rev(q, nodes[i]);
    v.nodes.lemma_filter_contains_rev(q, nodes[j]);
    let a = choose|a: int| 0 <= a < v.nodes.len() && v.nodes[a] == nodes[i];
    let b = choose|b: int| 0 <= b < v.nodes.len() && v.nodes[b] == nodes[j];
    if a < b {
        assert(v.nodes[a].node_id == v.nodes[b].node_id);
    } else if b < a {
        assert(v.nodes[b].node_id == v.nodes[a].node_id);
    }
}

/// A change of one row, as it is seen where the rows of its execution are read.
pub proof fn lemma_one_changed(v: StoreView, wid: Seq<char>, node: Seq<char>, f: spec_fn(NodeView) -> NodeView)
    requires
        forall|n: NodeView|
            (#[trigger] f(n)).workflow_id == n.workflow_id && f(n).node_id == n.node_id,
    ensures
        ({
            let before = v.nodes_of(wid);
            let after = v.with_node(wid, node, f).nodes_of(wid);
            &&& v.with_node(wid, node, f).row(wid) == v.row(wid)
            &&& same_but(before, after, node)
            &&& supervisor::node_in(after, node) == match supervisor::node_in(before, node) {
                Some(n) => Some(f(n)),
                None => None,
            }
        }),
{
    let before = v.nodes_of(wid);
    let after = v.with_node(wid, node, f).nodes_of(wid);
    execution_laws::lemma_nodes_with_node(v, wid, node, f, wid, node);
    assert forall|x: Seq<char>| x != node implies #[trigger] supervisor::node_in(after, x)
        == supervisor::node_in(before, x) by {
        execution_laws::lemma_nodes_with_node(v, wid, node, f, wid, x);
    }
}

/// A change of the row of an execution changes none of its nodes.
proof fn lemma_row_changed(v: StoreView, wid: Seq<char>, f: spec_fn(RowView) -> RowView)
    requires
        forall|r: RowView| (#[trigger] f(r)).record.workflow_id == r.record.workflow_id,
    ensures
        v.with_row(wid, f).nodes_of(wid) == v.nodes_of(wid),
        v.with_row(wid, f).row(wid) is Some <==> v.row(wid) is Some,
{
    execution_store::lemma_row_with_row(v, wid, wid, f);
}

/// Taking, giving up and closing an execution change none of its nodes, and neither
/// does putting off the end of a hold.
pub proof fn lemma_rows_apart(
    v: StoreView,
    wid: Seq<char>,
    driver: Seq<char>,
    until: Seq<char>,
    status: ExecutionStatus,
    result: Option<Seq<char>>,
    error: Option<Seq<char>>,
    t: Seq<char>,
)
    ensures
        v.claimed(wid, driver, until).nodes_of(wid) == v.nodes_of(wid),
        v.claimed(wid, driver, until).row(wid) is Some <==> v.row(wid) is Some,
        v.renewed(wid, driver, until).nodes_of(wid) == v.nodes_of(wid),
        v.renewed(wid, driver, until).row(wid) is Some <==> v.row(wid) is Some,
        v.released(wid, driver).nodes_of(wid) == v.nodes_of(wid),
        v.released(wid, driver).row(wid) is Some <==> v.row(wid) is Some,
        v.finished(wid, status, result, error, t).nodes_of(wid) == v.nodes_of(wid),
        v.finished(wid, status, result, error, t).row(wid) is Some <==> v.row(wid) is Some,
{
    lemma_row_changed(
        v,
        wid,
        |r: RowView| RowView { claimed_by: Some(driver), lease_expires_at: Some(until), ..r },
    );
    lemma_row_changed(
        v,
        wid,
        |r: RowView|
            if r.claimed_by == Some(driver) {
                RowView { lease_expires_at: Some(until), ..r }
            } else {
                r
            },
    );
    lemma_row_changed(
        v,
        wid,
        |r: RowView|
            if r.claimed_by == Some(driver) {
                RowView { claimed_by: None, lease_expires_at: None, ..r }
            } else {
                r
            },
    );
    lemma_row_changed(
        v,
        wid,
        |r: RowView|
            RowView {
                record: execution_store::ExecutionView {
                    status,
                    result,
                    error,
                    updated_at: t,
                    ..r.record
                },
                ..r
            },
    );
}

/// How a node stands after an answer that does not end the run: it is done and has
/// its output, or it waits for a decision.
pub open spec fn answered(before: Seq<NodeView>, after: Seq<NodeView>, node: Seq<char>) -> bool {
    &&& same_but(before, after, node)
    &&& supervisor::node_in(after, node) is Some
    &&& {
        ||| supervisor::stands(after, node, NodeStatus::Done) && supervisor::node_in(after, node)->0.output is Some
        ||| supervisor::stands(after, node, NodeStatus::Suspended)
    }
}

/// The names that are still owed after `node` was answered: those that were, but for
/// `node`, and those that the answer has set free.
pub open spec fn still_owed(owed: Set<Seq<char>>, node: Seq<char>, freed: Seq<(Seq<char>, JsonView)>) -> Set<
    Seq<char>,
> {
    owed.remove(node).union(names_of(freed).to_set())
}

/// What an answer that completes its node sets free.
pub open spec fn freed(
    w: WorkflowView,
    after: Seq<NodeView>,
    node: Seq<char>,
    tests: Seq<bool>,
    capabilities: Seq<Seq<char>>,
) -> Seq<(Seq<char>, JsonView)> {
    if supervisor::stands(after, node, NodeStatus::Done) {
        supervisor::newly_ready(
            w,
            after,
            w.outgoing(node),
            tests,
            capabilities,
            w.outgoing(node).len(),
        )
    } else {
        Seq::empty()
    }
}

/// An answer to a task that does not end the run leaves its node done or parked,
/// hands out what it has set free, and loses no node.
pub proof fn law_task_loses_nothing(
    s: SupervisorView,
    ready: Seq<(Seq<char>, JsonView)>,
    w: WorkflowView,
    id: u128,
    node: Seq<char>,
    reply: Result<EnvelopeView, ErrorView>,
    envelope_id: u128,
    elapsed_ms: u64,
    tests: Seq<bool>,
    capabilities: Seq<Seq<char>>,
    now: Instant,
    owed: Set<Seq<char>>,
)
    requires
        unconditional(w),
        s.store.row(ids::id_text(id)) is Some,
        supervisor::node_in(s.store.nodes_of(ids::id_text(id)), node) is Some,
        nothing_lost(w, s.store.nodes_of(ids::id_text(id)), owed),
        supervisor::after_task(s, ready, w, id, node, reply, envelope_id, elapsed_ms, tests, capabilities, now).outcome is None,
    ensures
        ({
            let wid = ids::id_text(id);
            let step = supervisor::after_task(s, ready, w, id, node, reply, envelope_id, elapsed_ms, tests, capabilities, now);
            let after = step.supervisor.store.nodes_of(wid);
            let free = freed(w, after, node, tests, capabilities);
            &&& step.supervisor.store.row(wid) is Some
            &&& answered(s.store.nodes_of(wid), after, node)
            &&& step.ready == ready + free
            &&& nothing_lost(w, after, still_owed(owed, node, free))
        }),
{
    let wid = ids::id_text(id);
    let t = now.words();
    let before = s.store.nodes_of(wid);
    let step = supervisor::after_task(s, ready, w, id, node, reply, envelope_id, elapsed_ms, tests, capabilities, now);
    let after = step.supervisor.store.nodes_of(wid);
    let free = freed(w, after, node, tests, capabilities);
    let env = reply->Ok_0;
    if env.kind == EnvelopeKind::Suspended {
        let p = resume::suspend_of(env.payload)->Ok_0;
        lemma_one_changed(
            s.store,
            wid,
            node,
            |n: NodeView|
                n.parked(
                    p.session_id,
                    p.approval_id,
                    p.kind,
                    p.prompt,
                    supervisor::deadline_for(s.agents, node, p, now),
                    t,
                ),
        );
        law_waiting_loses_nothing(w, before, after, node, owed);
        assert(ready + free =~= ready);
        assert(still_owed(owed, node, free) =~= owed.remove(node)) by {
            assert(names_of(free) =~= Seq::empty());
        }
    } else {
        let output = json::json_text(env.payload);
        lemma_one_changed(s.store, wid, node, |n: NodeView| n.completed(output, t));
        law_answer_loses_nothing(w, before, after, node, owed, tests, capabilities);
    }
}

/// An answer to a decision that does not end the run with a failure leaves the node
/// done or parked, hands out what it has set free, and loses no node.
pub proof fn law_decision_loses_nothing(
    s: SupervisorView,
    w: WorkflowView,
    id: u128,
    node: Seq<char>,
    reply: Result<EnvelopeView, ErrorView>,
    tests: Seq<bool>,
    capabilities: Seq<Seq<char>>,
    now: Instant,
    owed: Set<Seq<char>>,
)
    requires
        unconditional(w),
        supervisor::resumable(s, ids::id_text(id), node) is Ok,
        nothing_lost(w, s.store.nodes_of(ids::id_text(id)), owed),
        !failed(supervisor::after_resume(s, w, id, node, reply, tests, capabilities, now).outcome),
    ensures
        ({
            let wid = ids::id_text(id);
            let step = supervisor::after_resume(s, w, id, node, reply, tests, capabilities, now);
            let after = step.supervisor.store.nodes_of(wid);
            let free = freed(w, after, node, tests, capabilities);
            &&& step.supervisor.store.row(wid) is Some
            &&& answered(s.store.nodes_of(wid), after, node)
            &&& step.ready == free
            &&& nothing_lost(w, after, still_owed(owed, node, free))
        }),
{
    let wid = ids::id_text(id);
    let t = now.words();
    let before = s.store.nodes_of(wid);
    let step = supervisor::after_resume(s, w, id, node, reply, tests, capabilities, now);
    let after = step.supervisor.store.nodes_of(wid);
    let free = freed(w, after, node, tests, capabilities);
    let env = reply->Ok_0;
    if env.kind == EnvelopeKind::Suspended {
        let p = resume::suspend_of(env.payload)->Ok_0;
        let parked = s.parked(id, node, p, now);
        lemma_one_changed(
            s.store,
            wid,
            node,
            |n: NodeView|
                n.parked(
                    p.session_id,
                    p.approval_id,
                    p.kind,
                    p.prompt,
                    supervisor::deadline_for(s.agents, node, p, now),
                    t,
                ),
        );
        lemma_rows_apart(parked.store, wid, s.driver, t, ExecutionStatus::Suspended, None, None, t);
        lemma_rows_apart(
            parked.store.finished(wid, ExecutionStatus::Suspended, None, None, t),
            wid,
            s.driver,
            t,
            ExecutionStatus::Suspended,
            None,
            None,
            t,
        );
        law_waiting_loses_nothing(w, before, after, node, owed);
        assert(still_owed(owed, node, free) =~= owed.remove(node)) by {
            assert(names_of(free) =~= Seq::empty());
        }
    } else {
        let output = json::json_text(env.payload);
        lemma_one_changed(s.store, wid, node, |n: NodeView| n.completed(output, t));
        lemma_rows_apart(
            s.store.completed(wid, node, output, t),
            wid,
            s.driver,
            t,
            ExecutionStatus::Running,
            None,
            None,
            t,
        );
        law_answer_loses_nothing(w, before, after, node, owed, tests, capabilities);
    }
}

/// Whether an outcome, where there is one, is other than that the run is suspended.
pub open spec fn failed(outcome: Option<OutcomeView>) -> bool {
    outcome matches Some(o) && !(o is Suspended)
}

/// A run: the supervisor, the nodes that are to be handed out with their input, and
/// the nodes that have been taken up to be handed out and are not answered yet.
#[verifier::ext_equal]
pub struct RunView {
    pub supervisor: SupervisorView,
    pub ready: Seq<(Seq<char>, JsonView)>,
    pub out: Seq<Seq<char>>,
}

/// What can happen to a run.
pub enum RunStep {
    /// Something that changes no node of the execution: another driver turns to it,
    /// it is taken, given up or closed, or an answer ends the work on it.
    Aside { supervisor: SupervisorView },
    /// The nodes that are to be handed out are taken up, see `Supervisor::next_level`.
    Level { now: Instant },
    /// A node that was taken up is handed out, see `Supervisor::dispatch`.
    Dispatched { i: int, envelope_id: u128, now: Instant },
    /// A node that was taken up is answered, see `Supervisor::on_task`.
    Answered {
        i: int,
        reply: Result<EnvelopeView, ErrorView>,
        envelope_id: u128,
        elapsed_ms: u64,
        tests: Seq<bool>,
        capabilities: Seq<Seq<char>>,
        now: Instant,
    },
    /// The agent of a parked node answers a decision, see `Supervisor::on_resumed`.
    Decided {
        node: Seq<char>,
        reply: Result<EnvelopeView, ErrorView>,
        tests: Seq<bool>,
        capabilities: Seq<Seq<char>>,
        now: Instant,
    },
    /// The work of a driver that is gone is taken up again, see
    /// `Supervisor::begin_recover`. What that driver had in hand is no longer waited for.
    Recovered { now: Instant },
}

impl RunView {
    /// The nodes that are to be handed out, or are not answered yet.
    pub open spec fn owed(self) -> Seq<Seq<char>> {
        names_of(self.ready) + self.out
    }

    /// Whether there is nothing to hand out and nothing to wait for.
    pub open spec fn rests(self) -> bool {
        self.ready.len() == 0 && self.out.len() == 0
    }

    /// The rows of the execution.
    pub open spec fn nodes(self, id: u128) -> Seq<NodeView> {
        self.supervisor.store.nodes_of(ids::id_text(id))
    }

    /// What the answer to a task comes to.
    pub open spec fn on_answer(self, w: WorkflowView, id: u128, step: RunStep) -> supervisor::StepView
        recommends
            step is Answered,
    {
        supervisor::after_task(
            self.supervisor,
            self.ready,
            w,
            id,
            self.out[step->Answered_i],
            step->Answered_reply,
            step->Answered_envelope_id,
            step->elapsed_ms,
            step->Answered_tests,
            step->Answered_capabilities,
            step->Answered_now,
        )
    }

    /// What the answer to a decision comes to.
    pub open spec fn on_decision(self, w: WorkflowView, id: u128, step: RunStep) -> supervisor::StepView
        recommends
            step is Decided,
    {
        supervisor::after_resume(
            self.supervisor,
            w,
            id,
            step->node,
            step->Decided_reply,
            step->Decided_tests,
            step->Decided_capabilities,
            step->Decided_now,
        )
    }

    /// Whether a step can be taken. An answer that fails is no step by itself: it
    /// changes no node, and what it does to the execution is an `Aside`. A recovery
    /// finds what was at work only where it waits for nothing.
    pub open spec fn allows(self, w: WorkflowView, id: u128, step: RunStep) -> bool {
        let wid = ids::id_text(id);
        match step {
            RunStep::Aside { supervisor } => supervisor.store.nodes_of(wid) == self.nodes(id)
                && supervisor.store.row(wid) is Some && supervisor.store.keyed(),
            RunStep::Level { .. } => self.ready.len() > 0,
            RunStep::Dispatched { i, .. } => 0 <= i < self.out.len()
                && self.supervisor.agents.dom().contains(self.out[i]),
            RunStep::Answered { i, .. } => 0 <= i < self.out.len() && self.on_answer(
                w,
                id,
                step,
            ).outcome is None,
            RunStep::Decided { node, .. } => supervisor::resumable(self.supervisor, wid, node) is Ok
                && !failed(self.on_decision(w, id, step).outcome),
            RunStep::Recovered { now } => self.supervisor.store.claimable(
                wid,
                self.supervisor.driver,
                now.words(),
            ) && work_is_unblocked(w, self.nodes(id)),
        }
    }

    /// The run after a step.
    pub open spec fn after(self, w: WorkflowView, id: u128, step: RunStep) -> RunView {
        let wid = ids::id_text(id);
        let s = self.supervisor;
        match step {
            RunStep::Aside { supervisor } => RunView { supervisor, ..self },
            RunStep::Level { now } => RunView {
                supervisor: s.with_store(s.store.renewed(wid, s.driver, now.lease_end().words())),
                ready: Seq::empty(),
                out: self.out + names_of(self.ready),
            },
            RunStep::Dispatched { i, envelope_id, now } => RunView {
                supervisor: s.with_store(s.store.started(wid, self.out[i], now.words())).told(
                    EventView::TaskDispatched { workflow_id: id, node: self.out[i], envelope_id },
                ),
                ..self
            },
            RunStep::Answered { i, .. } => RunView {
                supervisor: self.on_answer(w, id, step).supervisor,
                ready: self.on_answer(w, id, step).ready,
                out: self.out.remove(i),
            },
            RunStep::Decided { .. } => RunView {
                supervisor: self.on_decision(w, id, step).supervisor,
                ready: self.ready + self.on_decision(w, id, step).ready,
                out: self.out,
            },
            RunStep::Recovered { now } => RunView {
                supervisor: s.held(wid, now).with_store(
                    s.held(wid, now).store.finished(
                        wid,
                        ExecutionStatus::Running,
                        None,
                        None,
                        now.words(),
                    ),
                ),
                ready: supervisor::recovered_tasks(w, s.held(wid, now).store, wid),
                out: Seq::empty(),
            },
        }
    }

    /// The run after several steps.
    pub open spec fn after_all(self, w: WorkflowView, id: u128, steps: Seq<RunStep>) -> RunView
        decreases steps.len(),
    {
        if steps.len() == 0 {
            self
        } else {
            self.after_all(w, id, steps.drop_last()).after(w, id, steps.last())
        }
    }

    /// Whether several steps can be taken, one after the other.
    pub open spec fn allows_all(self, w: WorkflowView, id: u128, steps: Seq<RunStep>) -> bool
        decreases steps.len(),
    {
        steps.len() == 0 || self.allows_all(w, id, steps.drop_last()) && self.after_all(
            w,
            id,
            steps.drop_last(),
        ).allows(w, id, steps.last())
    }
}

/// A run that has just begun, see `Supervisor::start`.
pub open spec fn fresh_run(
    s: SupervisorView,
    id: u128,
    w: WorkflowView,
    payload: JsonView,
    spec_text: Seq<char>,
    names: Seq<Seq<char>>,
    now: Instant,
) -> RunView {
    RunView {
        supervisor: supervisor::begun(s, id, w, payload, spec_text, names, now),
        ready: supervisor::entry_tasks(w, payload),
        out: Seq::empty(),
    }
}

/// What every state of a run keeps: the rows are those of the nodes, none of them has
/// failed, those that are done have their output, no node is lost, and what is at
/// work is waited for.
pub open spec fn in_order(w: WorkflowView, id: u128, run: RunView) -> bool {
    let nodes = run.nodes(id);
    &&& run.supervisor.store.row(ids::id_text(id)) is Some
    &&& run.supervisor.store.keyed()
    &&& rows_match(w, nodes)
    &&& none_failed(nodes)
    &&& outputs_kept(nodes)
    &&& nothing_lost(w, nodes, run.owed().to_set())
    &&& work_in_hand(nodes, run.owed().to_set())
    &&& forall|x: Seq<char>| #[trigger] run.owed().contains(x) ==> w.names(x)
}

/// Whether no node has failed.
pub open spec fn none_failed(nodes: Seq<NodeView>) -> bool {
    forall|x: Seq<char>| !#[trigger] supervisor::stands(nodes, x, NodeStatus::Failed)
}

/// An answered node keeps what a run keeps of its rows.
proof fn lemma_answered_rows(w: WorkflowView, before: Seq<NodeView>, after: Seq<NodeView>, node: Seq<char>, owed: Set<Seq<char>>)
    requires
        answered(before, after, node),
        supervisor::node_in(before, node) is Some,
        rows_match(w, before),
        none_failed(before),
        outputs_kept(before),
        work_in_hand(before, owed),
    ensures
        rows_match(w, after),
        none_failed(after),
        outputs_kept(after),
        work_in_hand(after, owed.remove(node)),
{
    assert forall|x: Seq<char>| (#[trigger] supervisor::node_in(after, x)) is Some <==> w.names(x) by {
        assert(supervisor::node_in(before, x) is Some <==> w.names(x));
    }
    assert forall|x: Seq<char>| !#[trigger] supervisor::stands(after, x, NodeStatus::Failed) by {
        assert(!supervisor::stands(before, x, NodeStatus::Failed));
    }
    assert forall|x: Seq<char>| supervisor::stands(after, x, NodeStatus::Done) implies (
    #[trigger] supervisor::node_in(after, x))->0.output is Some by {
        if x != node {
            assert(supervisor::node_in(after, x) == supervisor::node_in(before, x));
            assert(supervisor::stands(before, x, NodeStatus::Done));
        }
    }
    assert forall|x: Seq<char>| #[trigger] supervisor::stands(after, x, NodeStatus::Running) implies owed.remove(
        node,
    ).contains(x) by {
        if x != node {
            assert(supervisor::stands(before, x, NodeStatus::Running));
        }
    }
}

/// Where more is owed, no more is lost.
proof fn lemma_owed_more(w: WorkflowView, nodes: Seq<NodeView>, a: Set<Seq<char>>, b: Set<Seq<char>>)
    requires
        nothing_lost(w, nodes, a),
        work_in_hand(nodes, a),
        forall|x: Seq<char>| #[trigger] a.contains(x) ==> b.contains(x),
    ensures
        nothing_lost(w, nodes, b),
        work_in_hand(nodes, b),
{
}

/// What is set free is a node of the workflow.
proof fn lemma_freed_names(
    w: WorkflowView,
    after: Seq<NodeView>,
    node: Seq<char>,
    tests: Seq<bool>,
    capabilities: Seq<Seq<char>>,
    x: Seq<char>,
)
    requires
        names_of(freed(w, after, node, tests, capabilities)).contains(x),
    ensures
        w.names(x),
        supervisor::stands(after, node, NodeStatus::Done),
        supervisor::stands(after, x, NodeStatus::Pending),
        supervisor::unblocked(w, after, x),
        supervisor::upstream(w, x).contains(node),
{
    let free = freed(w, after, node, tests, capabilities);
    let edges = w.outgoing(node);
    let k = choose|k: int| 0 <= k < names_of(free).len() && names_of(free)[k] == x;
    supervisor_laws::law_ready_means_unblocked(w, after, edges, tests, capabilities, edges.len(), k);
    let j = choose|j: int|
        0 <= j < edges.len() && (#[trigger] edges[j]).to == free[k].0 && edges[j].fires(tests, capabilities);
    lemma_edge_from(w, node, j);
    let n = choose|n: int| 0 <= n < w.edges.len() && w.edges[n] == edges[j];
    assert(w.edges[n].to == x);
}

/// A node that is found again by a recovery was pending or at work, and waits for
/// nothing.
proof fn lemma_recovered_names(
    w: WorkflowView,
    nodes: Seq<NodeView>,
    initial: JsonView,
    n: nat,
    x: Seq<char>,
)
    requires
        n <= nodes.len(),
        names_of(supervisor::recovered_upto(w, nodes, initial, n)).contains(x),
    ensures
        supervisor::unblocked(w, nodes, x),
        exists|j: int|
            0 <= j < n && (#[trigger] nodes[j]).node_id == x && (nodes[j].status == NodeStatus::Pending
                || nodes[j].status == NodeStatus::Running),
    decreases n,
{
    let all = supervisor::recovered_upto(w, nodes, initial, n);
    let k = choose|k: int| 0 <= k < names_of(all).len() && names_of(all)[k] == x;
    if n > 0 {
        let prior = supervisor::recovered_upto(w, nodes, initial, (n - 1) as nat);
        if k < prior.len() {
            assert(names_of(prior)[k] == x);
            lemma_recovered_names(w, nodes, initial, (n - 1) as nat, x);
        } else {
            assert(nodes[n - 1].node_id == x);
        }
    }
}

/// A run that has just begun is in order.
proof fn lemma_fresh_in_order(
    s: SupervisorView,
    id: u128,
    w: WorkflowView,
    payload: JsonView,
    spec_text: Seq<char>,
    names: Seq<Seq<char>>,
    now: Instant,
)
    requires
        s.store.keyed(),
        !s.store.has(ids::id_text(id)),
        s.store.nodes_of(ids::id_text(id)).len() == 0,
        lists_nodes(w, names),
        begins_at_its_entries(w),
    ensures
        in_order(w, id, fresh_run(s, id, w, payload, spec_text, names, now)),
{
    let wid = ids::id_text(id);
    let t = now.words();
    let run = fresh_run(s, id, w, payload, spec_text, names, now);
    let nodes = run.nodes(id);
    law_start_loses_nothing(s, id, w, payload, spec_text, names, now);
    execution_laws::law_created_reads_back(s.store, wid, spec_text, json::json_text(payload), names, t);
    execution_laws::law_new_execution_stays_keyed(s.store, wid, spec_text, json::json_text(payload), names, t);
    let made = s.store.created(wid, spec_text, json::json_text(payload), names, t);
    lemma_rows_apart(made, wid, s.driver, now.lease_end().words(), ExecutionStatus::Running, None, None, t);
    assert(run.owed() =~= names_of(run.ready));
    assert forall|x: Seq<char>| !supervisor::stands(nodes, x, NodeStatus::Done)
        && !#[trigger] supervisor::stands(nodes, x, NodeStatus::Failed)
        && !supervisor::stands(nodes, x, NodeStatus::Running) by {
        assert(w.names(x) <==> supervisor::stands(nodes, x, NodeStatus::Pending));
        assert(w.names(x) <==> supervisor::node_in(nodes, x) is Some);
    }
    assert forall|x: Seq<char>| supervisor::stands(nodes, x, NodeStatus::Done) implies (
    #[trigger] supervisor::node_in(nodes, x))->0.output is Some by {
        assert(!supervisor::stands(nodes, x, NodeStatus::Failed));
    }
    assert forall|x: Seq<char>| #[trigger] supervisor::stands(nodes, x, NodeStatus::Running) implies run.owed().to_set().contains(
        x,
    ) by {
        assert(!supervisor::stands(nodes, x, NodeStatus::Failed));
    }
    assert forall|x: Seq<char>| #[trigger] run.owed().contains(x) implies w.names(x) by {
        let k = choose|k: int| 0 <= k < run.owed().len() && run.owed()[k] == x;
        assert(w.entries[k] == x);
    }
}

/// The names owed after one is no longer waited for: the others are.
proof fn lemma_one_less(ready: Seq<(Seq<char>, JsonView)>, out: Seq<Seq<char>>, i: int, more: Seq<(Seq<char>, JsonView)>, x: Seq<char>)
    requires
        0 <= i < out.len(),
    ensures
        (names_of(ready) + out).contains(x) && x != out[i] || names_of(more).contains(x) ==> (names_of(
            ready + more,
        ) + out.remove(i)).contains(x),
        (names_of(ready + more) + out.remove(i)).contains(x) ==> (names_of(ready) + out).contains(x)
            || names_of(more).contains(x),
{
    let a = names_of(ready) + out;
    let b = names_of(ready + more) + out.remove(i);
    let r = ready.len() as int;
    let m = more.len() as int;
    assert(names_of(ready + more) =~= names_of(ready) + names_of(more));
    if a.contains(x) && x != out[i] {
        let k = choose|k: int| 0 <= k < a.len() && a[k] == x;
        if k < r {
            assert(b[k] == x);
        } else if k - r < i {
            assert(b[k + m] == out[k - r]);
        } else {
            assert(b[k + m - 1] == out[k - r]);
        }
    }
    if names_of(more).contains(x) {
        let k = choose|k: int| 0 <= k < m && names_of(more)[k] == x;
        assert(b[k + r] == x);
    }
    if b.contains(x) {
        let k = choose|k: int| 0 <= k < b.len() && b[k] == x;
        if k < r {
            assert(a[k] == x);
        } else if k < r + m {
            assert(names_of(more)[k - r] == x);
        } else if k - r - m < i {
            assert(a[k - m] == x);
        } else {
            assert(a[k - m + 1] == x);
        }
    }
}

/// Every step leaves a run in order.
proof fn lemma_step_in_order(w: WorkflowView, id: u128, run: RunView, step: RunStep)
    requires
        unconditional(w),
        in_order(w, id, run),
        run.allows(w, id, step),
    ensures
        in_order(w, id, run.after(w, id, step)),
{
    let wid = ids::id_text(id);
    let s = run.supervisor;
    let before = run.nodes(id);
    let next = run.after(w, id, step);
    let after = next.nodes(id);
    match step {
        RunStep::Aside { supervisor } => {},
        RunStep::Level { now } => {
            lemma_rows_apart(s.store, wid, s.driver, now.lease_end().words(), ExecutionStatus::Running, None, None, Seq::empty());
            assert forall|x: Seq<char>| #[trigger] next.owed().contains(x) <==> run.owed().contains(x) by {
                let r = run.ready.len() as int;
                let o = run.out.len() as int;
                assert(names_of(next.ready) =~= Seq::empty());
                if run.owed().contains(x) {
                    let k = choose|k: int| 0 <= k < run.owed().len() && run.owed()[k] == x;
                    if k < r {
                        assert(next.owed()[k + o] == x);
                    } else {
                        assert(next.owed()[k - r] == x);
                    }
                }
                if next.owed().contains(x) {
                    let k = choose|k: int| 0 <= k < next.owed().len() && next.owed()[k] == x;
                    if k < o {
                        assert(run.owed()[k + r] == x);
                    } else {
                        assert(run.owed()[k - o] == x);
                    }
                }
            }
            lemma_owed_more(w, before, run.owed().to_set(), next.owed().to_set());
        },
        RunStep::Dispatched { i, envelope_id, now } => {
            let node = run.out[i];
            lemma_one_changed(s.store, wid, node, |n: NodeView| n.started(now.words()));
            assert(run.owed()[i + run.ready.len()] == node);
            assert(run.owed().contains(node));
            assert(supervisor::node_in(before, node) is Some);
            law_waiting_loses_nothing(w, before, after, node, run.owed().to_set());
            assert forall|x: Seq<char>| (#[trigger] supervisor::node_in(after, x)) is Some <==> w.names(x) by {
                assert(supervisor::node_in(before, x) is Some <==> w.names(x));
            }
            assert forall|x: Seq<char>| !#[trigger] supervisor::stands(after, x, NodeStatus::Failed) by {
                assert(!supervisor::stands(before, x, NodeStatus::Failed));
            }
            assert forall|x: Seq<char>| supervisor::stands(after, x, NodeStatus::Done) implies (
            #[trigger] supervisor::node_in(after, x))->0.output is Some by {
                assert(x != node);
                assert(supervisor::node_in(after, x) == supervisor::node_in(before, x));
                assert(supervisor::stands(before, x, NodeStatus::Done));
            }
            assert forall|x: Seq<char>| #[trigger] supervisor::stands(after, x, NodeStatus::Running) implies run.owed().to_set().contains(
                x,
            ) by {
                if x != node {
                    assert(supervisor::stands(before, x, NodeStatus::Running));
                }
            }
        },
        RunStep::Answered { i, reply, envelope_id, elapsed_ms, tests, capabilities, now } => {
            let node = run.out[i];
            let owed = run.owed().to_set();
            assert(run.owed()[i + run.ready.len()] == node);
            assert(run.owed().contains(node));
            assert(supervisor::node_in(before, node) is Some);
            law_task_loses_nothing(s, run.ready, w, id, node, reply, envelope_id, elapsed_ms, tests, capabilities, now, owed);
            supervisor_laws::law_answers_keep_the_rows_keyed(s, run.ready, w, id, node, reply, envelope_id, elapsed_ms, tests, capabilities, now);
            lemma_answered_rows(w, before, after, node, owed);
            let free = freed(w, after, node, tests, capabilities);
            assert forall|x: Seq<char>| #[trigger] still_owed(owed, node, free).contains(x) implies next.owed().to_set().contains(
                x,
            ) by {
                lemma_one_less(run.ready, run.out, i, free, x);
            }
            lemma_owed_more(w, after, still_owed(owed, node, free), next.owed().to_set());
            assert forall|x: Seq<char>| #[trigger] next.owed().contains(x) implies w.names(x) by {
                lemma_one_less(run.ready, run.out, i, free, x);
                if names_of(free).contains(x) {
                    lemma_freed_names(w, after, node, tests, capabilities, x);
                }
            }
        },
        RunStep::Decided { node, reply, tests, capabilities, now } => {
            let owed = run.owed().to_set();
            law_decision_loses_nothing(s, w, id, node, reply, tests, capabilities, now, owed);
            supervisor_laws::law_answers_keep_the_rows_keyed(s, run.ready, w, id, node, reply, 0, 0, tests, capabilities, now);
            lemma_answered_rows(w, before, after, node, owed);
            let free = freed(w, after, node, tests, capabilities);
            assert forall|x: Seq<char>| #[trigger] next.owed().contains(x) <==> run.owed().contains(x)
                || names_of(free).contains(x) by {
                lemma_some_more(run.ready, run.out, free, x);
            }
            lemma_owed_more(w, after, still_owed(owed, node, free), next.owed().to_set());
            assert forall|x: Seq<char>| #[trigger] next.owed().contains(x) implies w.names(x) by {
                if names_of(free).contains(x) {
                    lemma_freed_names(w, after, node, tests, capabilities, x);
                }
            }
        },
        RunStep::Recovered { now } => {
            let held = s.held(wid, now).store;
            let t = now.words();
            let initial = supervisor::stored_value(held.row(wid)->0.record.initial_payload);
            lemma_rows_apart(s.store, wid, s.driver, now.lease_end().words(), ExecutionStatus::Running, None, None, t);
            lemma_rows_apart(held, wid, s.driver, t, ExecutionStatus::Running, None, None, t);
            law_recovery_loses_nothing(w, held, wid);
            assert(next.owed() =~= names_of(next.ready));
            assert forall|x: Seq<char>| #[trigger] next.owed().contains(x) implies w.names(x) by {
                lemma_recovered_names(w, before, initial, before.len(), x);
                let j = choose|j: int| 0 <= j < before.len() && (#[trigger] before[j]).node_id == x;
                lemma_found(before, j);
            }
        },
    }
}

/// The names owed after more have come.
proof fn lemma_some_more(ready: Seq<(Seq<char>, JsonView)>, out: Seq<Seq<char>>, more: Seq<(Seq<char>, JsonView)>, x: Seq<char>)
    ensures
        (names_of(ready + more) + out).contains(x) <==> (names_of(ready) + out).contains(x) || names_of(
            more,
        ).contains(x),
{
    let a = names_of(ready) + out;
    let b = names_of(ready + more) + out;
    let r = ready.len() as int;
    let m = more.len() as int;
    assert(names_of(ready + more) =~= names_of(ready) + names_of(more));
    if a.contains(x) {
        let k = choose|k: int| 0 <= k < a.len() && a[k] == x;
        if k < r {
            assert(b[k] == x);
        } else {
            assert(b[k + m] == x);
        }
    }
    if names_of(more).contains(x) {
        let k = choose|k: int| 0 <= k < m && names_of(more)[k] == x;
        assert(b[k + r] == x);
    }
    if b.contains(x) {
        let k = choose|k: int| 0 <= k < b.len() && b[k] == x;
        if k < r {
            assert(a[k] == x);
        } else if k < r + m {
            assert(names_of(more)[k - r] == x);
        } else {
            assert(a[k - m] == x);
        }
    }
}

/// Every state of a run is in order, however the steps are interleaved: no node is
/// lost, and what is at work is waited for.
pub proof fn law_run_stays_in_order(
    s: SupervisorView,
    id: u128,
    w: WorkflowView,
    payload: JsonView,
    spec_text: Seq<char>,
    names: Seq<Seq<char>>,
    now: Instant,
    steps: Seq<RunStep>,
)
    requires
        s.store.keyed(),
        !s.store.has(ids::id_text(id)),
        s.store.nodes_of(ids::id_text(id)).len() == 0,
        unconditional(w),
        begins_at_its_entries(w),
        lists_nodes(w, names),
        fresh_run(s, id, w, payload, spec_text, names, now).allows_all(w, id, steps),
    ensures
        in_order(w, id, fresh_run(s, id, w, payload, spec_text, names, now).after_all(w, id, steps)),
    decreases steps.len(),
{
    let fresh = fresh_run(s, id, w, payload, spec_text, names, now);
    if steps.len() == 0 {
        lemma_fresh_in_order(s, id, w, payload, spec_text, names, now);
    } else {
        law_run_stays_in_order(s, id, w, payload, spec_text, names, now, steps.drop_last());
        lemma_step_in_order(w, id, fresh.after_all(w, id, steps.drop_last()), steps.last());
    }
}

/// A run that comes to rest, whatever was answered, decided and recovered on the way, is
/// suspended where a node waits for a decision. Otherwise every node has run, and the
/// result holds the output of every node that no edge leaves, and nothing else. It
/// holds of workflows whose edges are all followed and which begin at their entries.
/// Gates that expire are left out: no step lets a node fail.
pub proof fn law_run_gives_every_result(
    s: SupervisorView,
    id: u128,
    w: WorkflowView,
    payload: JsonView,
    spec_text: Seq<char>,
    names: Seq<Seq<char>>,
    now: Instant,
    steps: Seq<RunStep>,
    t: Seq<char>,
)
    requires
        s.store.keyed(),
        !s.store.has(ids::id_text(id)),
        s.store.nodes_of(ids::id_text(id)).len() == 0,
        unconditional(w),
        begins_at_its_entries(w),
        !workflow::cyclic(w.edges),
        lists_nodes(w, names),
        fresh_run(s, id, w, payload, spec_text, names, now).allows_all(w, id, steps),
        fresh_run(s, id, w, payload, spec_text, names, now).after_all(w, id, steps).rests(),
    ensures
        ({
            let run = fresh_run(s, id, w, payload, spec_text, names, now).after_all(w, id, steps);
            let nodes = run.nodes(id);
            let outcome = supervisor::finalized(run.supervisor, w, id, t).1;
            if supervisor::some_suspended(nodes) {
                outcome == Ok::<OutcomeView, ErrorView>(OutcomeView::Suspended { workflow_id: id })
            } else {
                let m = supervisor::terminal_outputs(w, nodes);
                &&& outcome == Ok::<OutcomeView, ErrorView>(
                    OutcomeView::Success(JsonView::Object(m)),
                )
                &&& holds_every_end(w, nodes, m)
                &&& forall|x: Seq<char>| #[trigger]
                    w.names(x) ==> supervisor::stands(nodes, x, NodeStatus::Done)
            }
        }),
{
    let run = fresh_run(s, id, w, payload, spec_text, names, now).after_all(w, id, steps);
    let nodes = run.nodes(id);
    law_run_stays_in_order(s, id, w, payload, spec_text, names, now, steps);
    assert(run.owed() =~= Seq::empty());
    assert(run.owed().to_set() =~= Set::empty());
    if !supervisor::some_suspended(nodes) {
        assert forall|x: Seq<char>| (#[trigger] supervisor::node_in(nodes, x)) is Some implies supervisor::stands(
            nodes,
            x,
            NodeStatus::Pending,
        ) || supervisor::stands(nodes, x, NodeStatus::Done) by {
            let j = lemma_row_of(nodes, x);
            assert(nodes[j].status != NodeStatus::Suspended);
            assert(!supervisor::stands(nodes, x, NodeStatus::Failed));
            assert(!supervisor::stands(nodes, x, NodeStatus::Running));
        }
        law_success_covers_every_end(run.supervisor, w, id, t);
    }
}

/// A planned run that comes to rest, whatever was answered, decided and recovered on
/// the way, is suspended where a node waits for a decision. Otherwise every node of
/// the plan has run, and the result holds the output of every node that no node of the
/// plan depends on, and nothing else. Gates that expire are left out: no step lets a
/// node fail.
pub proof fn law_planned_run_gives_every_result(
    entries: Seq<EntryView>,
    d: Seq<DagNodeView>,
    s: SupervisorView,
    id: u128,
    payload: JsonView,
    spec_text: Seq<char>,
    names: Seq<Seq<char>>,
    now: Instant,
    steps: Seq<RunStep>,
    t: Seq<char>,
)
    requires
        orchestrator::built(entries, d) is Ok,
        s.store.keyed(),
        !s.store.has(ids::id_text(id)),
        s.store.nodes_of(ids::id_text(id)).len() == 0,
        lists_nodes(orchestrator::built(entries, d)->Ok_0.1, names),
        fresh_run(s, id, orchestrator::built(entries, d)->Ok_0.1, payload, spec_text, names, now).allows_all(
            orchestrator::built(entries, d)->Ok_0.1,
            id,
            steps,
        ),
        fresh_run(s, id, orchestrator::built(entries, d)->Ok_0.1, payload, spec_text, names, now).after_all(
            orchestrator::built(entries, d)->Ok_0.1,
            id,
            steps,
        ).rests(),
    ensures
        ({
            let w = orchestrator::built(entries, d)->Ok_0.1;
            let run = fresh_run(s, id, w, payload, spec_text, names, now).after_all(w, id, steps);
            let nodes = run.nodes(id);
            let outcome = supervisor::finalized(run.supervisor, w, id, t).1;
            if supervisor::some_suspended(nodes) {
                outcome == Ok::<OutcomeView, ErrorView>(OutcomeView::Suspended { workflow_id: id })
            } else {
                let m = supervisor::terminal_outputs(w, nodes);
                &&& outcome == Ok::<OutcomeView, ErrorView>(
                    OutcomeView::Success(JsonView::Object(m)),
                )
                &&& m.dom() == dag::ids_of(dag::terminal_nodes(d)).to_set()
                &&& forall|x: Seq<char>| #[trigger]
                    m.dom().contains(x) ==> m[x] == supervisor::output_in(nodes, x)
                &&& forall|x: Seq<char>| #[trigger]
                    dag::is_id(d, x) ==> supervisor::stands(nodes, x, NodeStatus::Done)
            }
        }),
{
    let w = orchestrator::built(entries, d)->Ok_0.1;
    let run = fresh_run(s, id, w, payload, spec_text, names, now).after_all(w, id, steps);
    let nodes = run.nodes(id);
    law_plan_begins_at_its_entries(entries, d);
    law_run_gives_every_result(s, id, w, payload, spec_text, names, now, steps, t);
    if !supervisor::some_suspended(nodes) {
        lemma_ends_of_a_plan(entries, d, nodes, supervisor::terminal_outputs(w, nodes));
        assert forall|x: Seq<char>| #[trigger] dag::is_id(d, x) implies supervisor::stands(
            nodes,
            x,
            NodeStatus::Done,
        ) by {
            assert(w.names(x));
        }
    }
}

/// Whether every node that is owed is owed once, is pending or at work, and waits for
/// nothing.
pub open spec fn each_once(w: WorkflowView, id: u128, run: RunView) -> bool {
    &&& run.owed().no_duplicates()
    &&& forall|x: Seq<char>| #[trigger]
        run.owed().contains(x) ==> supervisor::unblocked(w, run.nodes(id), x) && (supervisor::stands(
            run.nodes(id),
            x,
            NodeStatus::Pending,
        ) || supervisor::stands(run.nodes(id), x, NodeStatus::Running))
}

/// A change of one node that does not undo it blocks no other.
proof fn lemma_stays_unblocked(w: WorkflowView, before: Seq<NodeView>, after: Seq<NodeView>, node: Seq<char>, x: Seq<char>)
    requires
        same_but(before, after, node),
        supervisor::stands(before, node, NodeStatus::Done) ==> supervisor::stands(
            after,
            node,
            NodeStatus::Done,
        ),
        supervisor::unblocked(w, before, x),
    ensures
        supervisor::unblocked(w, after, x),
{
    let deps = supervisor::upstream(w, x);
    assert forall|i: int| 0 <= i < deps.len() implies supervisor::stands(
        after,
        #[trigger] deps[i],
        NodeStatus::Done,
    ) by {
        assert(supervisor::stands(before, deps[i], NodeStatus::Done));
        if deps[i] != node {
            assert(supervisor::node_in(after, deps[i]) == supervisor::node_in(before, deps[i]));
        }
    }
}

/// Edges that lead to different nodes set no node free twice.
proof fn lemma_ready_once(
    w: WorkflowView,
    nodes: Seq<NodeView>,
    edges: Seq<EdgeView>,
    tests: Seq<bool>,
    capabilities: Seq<Seq<char>>,
    n: nat,
)
    requires
        n <= edges.len(),
        forall|i: int, j: int| 0 <= i < j < n ==> (#[trigger] edges[i]).to != (#[trigger] edges[j]).to,
    ensures
        names_of(supervisor::newly_ready(w, nodes, edges, tests, capabilities, n)).no_duplicates(),
    decreases n,
{
    let all = supervisor::newly_ready(w, nodes, edges, tests, capabilities, n);
    if n > 0 {
        let prior = supervisor::newly_ready(w, nodes, edges, tests, capabilities, (n - 1) as nat);
        lemma_ready_once(w, nodes, edges, tests, capabilities, (n - 1) as nat);
        assert forall|k: int| 0 <= k < prior.len() implies (#[trigger] prior[k]).0 != edges[n - 1].to by {
            supervisor_laws::law_ready_means_unblocked(w, nodes, edges, tests, capabilities, (n - 1) as nat, k);
        }
        assert forall|i: int, j: int| 0 <= i < names_of(all).len() && 0 <= j < names_of(all).len() && i != j implies names_of(
            all,
        )[i] != names_of(all)[j] by {
            if i < prior.len() && j < prior.len() {
                assert(names_of(prior)[i] == names_of(all)[i] && names_of(prior)[j] == names_of(all)[j]);
            } else if i < prior.len() {
                assert(all[i] == prior[i]);
            } else {
                assert(all[j] == prior[j]);
            }
        }
    }
}

proof fn lemma_picked_once(s: Seq<EdgeView>, p: spec_fn(EdgeView) -> bool)
    requires
        s.no_duplicates(),
    ensures
        s.filter(p).no_duplicates(),
    decreases s.len(),
{
    reveal(Seq::filter);
    if s.len() > 0 {
        let t = s.drop_last();
        lemma_picked_once(t, p);
        let f = t.filter(p);
        assert forall|k: int| 0 <= k < f.len() implies #[trigger] f[k] != s.last() by {
            t.lemma_filter_contains_rev(p, f[k]);
            let j = choose|j: int| 0 <= j < t.len() && t[j] == f[k];
            assert(s[j] == f[k]);
        }
        assert(s.filter(p).no_duplicates());
    }
}

/// What one answer sets free is set free once.
proof fn lemma_freed_once(
    w: WorkflowView,
    after: Seq<NodeView>,
    node: Seq<char>,
    tests: Seq<bool>,
    capabilities: Seq<Seq<char>>,
)
    requires
        unconditional(w),
        w.edges.no_duplicates(),
    ensures
        names_of(freed(w, after, node, tests, capabilities)).no_duplicates(),
{
    let out = |e: EdgeView| e.from == node;
    let edges = w.outgoing(node);
    lemma_picked_once(w.edges, out);
    assert forall|i: int, j: int| 0 <= i < j < edges.len() implies (#[trigger] edges[i]).to != (
    #[trigger] edges[j]).to by {
        w.edges.lemma_filter_pred(out, i);
        w.edges.lemma_filter_pred(out, j);
        w.edges.lemma_filter_contains_rev(out, edges[i]);
        w.edges.lemma_filter_contains_rev(out, edges[j]);
        let a = choose|a: int| 0 <= a < w.edges.len() && w.edges[a] == edges[i];
        let b = choose|b: int| 0 <= b < w.edges.len() && w.edges[b] == edges[j];
        assert(w.edges[a].when is None && w.edges[b].when is None);
        assert(edges[i] != edges[j]);
    }
    lemma_ready_once(w, after, edges, tests, capabilities, edges.len());
}

/// Names put in between, and one taken out.
proof fn lemma_still_once(a: Seq<Seq<char>>, f: Seq<Seq<char>>, o: Seq<Seq<char>>, i: int)
    requires
        (a + o).no_duplicates(),
        f.no_duplicates(),
        forall|x: Seq<char>| #[trigger] f.contains(x) ==> !(a + o).contains(x),
    ensures
        (a + f + o).no_duplicates(),
        0 <= i < o.len() ==> (a + f + o.remove(i)).no_duplicates() && !(a + o.remove(i)).contains(o[i]),
{
    let s = a + o;
    let n = a.len() as int;
    let m = f.len() as int;
    let u = a + f + o;
    assert forall|j: int, k: int| 0 <= j < u.len() && 0 <= k < u.len() && j != k implies u[j] != u[k] by {
        let jj = if j < n {
            j
        } else {
            j - m
        };
        let kk = if k < n {
            k
        } else {
            k - m
        };
        if n <= j < n + m && n <= k < n + m {
            assert(f[j - n] == u[j] && f[k - n] == u[k]);
        } else if n <= j < n + m {
            assert(f[j - n] == u[j]);
            assert(f.contains(u[j]));
            assert(s[kk] == u[k]);
        } else if n <= k < n + m {
            assert(f[k - n] == u[k]);
            assert(f.contains(u[k]));
            assert(s[jj] == u[j]);
        } else {
            assert(s[jj] == u[j] && s[kk] == u[k]);
        }
    }
    if 0 <= i < o.len() {
        assert(a + f + o.remove(i) =~= u.remove(n + m + i));
        let v = u.remove(n + m + i);
        assert forall|j: int, k: int| 0 <= j < v.len() && 0 <= k < v.len() && j != k implies v[j] != v[k] by {
            let jj = if j < n + m + i {
                j
            } else {
                j + 1
            };
            let kk = if k < n + m + i {
                k
            } else {
                k + 1
            };
            assert(v[j] == u[jj] && v[k] == u[kk]);
        }
        let z = a + o.remove(i);
        if z.contains(o[i]) {
            let k = choose|k: int| 0 <= k < z.len() && z[k] == o[i];
            assert(s[n + i] == o[i]);
            if k < n + i {
                assert(s[k] == z[k]);
            } else {
                assert(s[k + 1] == z[k]);
            }
        }
    }
}

/// Among rows that share no name, none is found twice by a recovery.
proof fn lemma_recovered_once(w: WorkflowView, nodes: Seq<NodeView>, initial: JsonView, n: nat)
    requires
        n <= nodes.len(),
        supervisor_laws::apart(nodes),
    ensures
        names_of(supervisor::recovered_upto(w, nodes, initial, n)).no_duplicates(),
    decreases n,
{
    let all = supervisor::recovered_upto(w, nodes, initial, n);
    if n > 0 {
        let prior = supervisor::recovered_upto(w, nodes, initial, (n - 1) as nat);
        lemma_recovered_once(w, nodes, initial, (n - 1) as nat);
        assert forall|k: int| 0 <= k < prior.len() implies (#[trigger] prior[k]).0 != nodes[n - 1].node_id by {
            assert(names_of(prior)[k] == prior[k].0);
            lemma_recovered_names(w, nodes, initial, (n - 1) as nat, prior[k].0);
        }
        assert forall|i: int, j: int| 0 <= i < names_of(all).len() && 0 <= j < names_of(all).len() && i != j implies names_of(
            all,
        )[i] != names_of(all)[j] by {
            if i < prior.len() && j < prior.len() {
                assert(names_of(prior)[i] == names_of(all)[i] && names_of(prior)[j] == names_of(all)[j]);
            } else if i < prior.len() {
                assert(all[i] == prior[i]);
            } else {
                assert(all[j] == prior[j]);
            }
        }
    }
}

/// What follows an answer, where every node that was owed was owed once.
proof fn lemma_answer_once(
    w: WorkflowView,
    id: u128,
    run: RunView,
    next: RunView,
    node: Seq<char>,
    tests: Seq<bool>,
    capabilities: Seq<Seq<char>>,
    i: int,
)
    requires
        unconditional(w),
        w.edges.no_duplicates(),
        each_once(w, id, run),
        answered(run.nodes(id), next.nodes(id), node),
        !supervisor::stands(run.nodes(id), node, NodeStatus::Done),
        next.ready == run.ready + freed(w, next.nodes(id), node, tests, capabilities),
        if 0 <= i < run.out.len() {
            node == run.out[i] && next.out == run.out.remove(i)
        } else {
            !run.owed().contains(node) && next.out == run.out
        },
    ensures
        each_once(w, id, next),
{
    let before = run.nodes(id);
    let after = next.nodes(id);
    let free = freed(w, after, node, tests, capabilities);
    let a = names_of(run.ready);
    let f = names_of(free);
    lemma_freed_once(w, after, node, tests, capabilities);
    assert forall|x: Seq<char>| #[trigger] f.contains(x) implies !(a + run.out).contains(x) by {
        lemma_freed_names(w, after, node, tests, capabilities, x);
        let deps = supervisor::upstream(w, x);
        let k = choose|k: int| 0 <= k < deps.len() && deps[k] == node;
        if run.owed().contains(x) {
            assert(supervisor::stands(before, deps[k], NodeStatus::Done));
        }
    }
    lemma_still_once(a, f, run.out, i);
    assert(names_of(next.ready) =~= a + f);
    assert forall|x: Seq<char>| #[trigger] next.owed().contains(x) implies supervisor::unblocked(w, after, x) && (
    supervisor::stands(after, x, NodeStatus::Pending) || supervisor::stands(after, x, NodeStatus::Running)) by {
        if f.contains(x) {
            lemma_freed_names(w, after, node, tests, capabilities, x);
        } else {
            let k = choose|k: int| 0 <= k < next.owed().len() && next.owed()[k] == x;
            let m = f.len() as int;
            let z = a + next.out;
            if k < a.len() {
                assert(z[k] == x);
            } else if k < a.len() + m {
                assert(f[k - a.len()] == x);
            } else {
                assert(z[k - m] == x);
            }
            assert(z.contains(x));
            assert(x != node);
            if 0 <= i < run.out.len() {
                lemma_one_less(run.ready, run.out, i, Seq::empty(), x);
                assert(run.ready + Seq::<(Seq<char>, JsonView)>::empty() =~= run.ready);
            }
            assert(run.owed().contains(x));
            lemma_stays_unblocked(w, before, after, node, x);
            assert(supervisor::node_in(after, x) == supervisor::node_in(before, x));
        }
    }
}

/// Every step keeps what is owed owed once, where no edge is repeated.
proof fn lemma_step_once(w: WorkflowView, id: u128, run: RunView, step: RunStep)
    requires
        unconditional(w),
        w.edges.no_duplicates(),
        in_order(w, id, run),
        each_once(w, id, run),
        run.allows(w, id, step),
    ensures
        each_once(w, id, run.after(w, id, step)),
{
    let wid = ids::id_text(id);
    let s = run.supervisor;
    let before = run.nodes(id);
    let next = run.after(w, id, step);
    let after = next.nodes(id);
    match step {
        RunStep::Aside { supervisor } => {},
        RunStep::Level { now } => {
            lemma_rows_apart(s.store, wid, s.driver, now.lease_end().words(), ExecutionStatus::Running, None, None, Seq::empty());
            let r = run.ready.len() as int;
            let o = run.out.len() as int;
            let u = run.owed();
            let v = next.owed();
            assert(names_of(next.ready) =~= Seq::empty());
            assert forall|k: int| 0 <= k < v.len() implies #[trigger] v[k] == u[if k < o {
                k + r
            } else {
                k - o
            }] by {}
            assert(v.no_duplicates());
            assert forall|x: Seq<char>| #[trigger] v.contains(x) implies u.contains(x) by {
                let k = choose|k: int| 0 <= k < v.len() && v[k] == x;
            }
        },
        RunStep::Dispatched { i, envelope_id, now } => {
            let node = run.out[i];
            lemma_one_changed(s.store, wid, node, |n: NodeView| n.started(now.words()));
            assert(run.owed()[i + run.ready.len()] == node);
            assert(run.owed().contains(node));
            assert forall|x: Seq<char>| #[trigger] next.owed().contains(x) implies supervisor::unblocked(w, after, x) && (
            supervisor::stands(after, x, NodeStatus::Pending) || supervisor::stands(after, x, NodeStatus::Running)) by {
                assert(run.owed().contains(x));
                lemma_stays_unblocked(w, before, after, node, x);
                if x != node {
                    assert(supervisor::node_in(after, x) == supervisor::node_in(before, x));
                }
            }
        },
        RunStep::Answered { i, reply, envelope_id, elapsed_ms, tests, capabilities, now } => {
            let node = run.out[i];
            assert(run.owed()[i + run.ready.len()] == node);
            assert(run.owed().contains(node));
            assert(supervisor::node_in(before, node) is Some);
            law_task_loses_nothing(s, run.ready, w, id, node, reply, envelope_id, elapsed_ms, tests, capabilities, now, run.owed().to_set());
            lemma_answer_once(w, id, run, next, node, tests, capabilities, i);
        },
        RunStep::Decided { node, reply, tests, capabilities, now } => {
            law_decision_loses_nothing(s, w, id, node, reply, tests, capabilities, now, run.owed().to_set());
            assert(supervisor::stands(before, node, NodeStatus::Suspended));
            lemma_answer_once(w, id, run, next, node, tests, capabilities, -1);
        },
        RunStep::Recovered { now } => {
            let held = s.held(wid, now).store;
            let t = now.words();
            let initial = supervisor::stored_value(held.row(wid)->0.record.initial_payload);
            lemma_rows_apart(s.store, wid, s.driver, now.lease_end().words(), ExecutionStatus::Running, None, None, t);
            lemma_rows_apart(held, wid, s.driver, t, ExecutionStatus::Running, None, None, t);
            supervisor_laws::lemma_filtered_apart(s.store.nodes, |n: NodeView| n.workflow_id == wid);
            lemma_recovered_once(w, before, initial, before.len());
            assert(next.owed() =~= names_of(next.ready));
            assert forall|x: Seq<char>| #[trigger] next.owed().contains(x) implies supervisor::unblocked(w, after, x) && (
            supervisor::stands(after, x, NodeStatus::Pending) || supervisor::stands(after, x, NodeStatus::Running)) by {
                lemma_recovered_names(w, before, initial, before.len(), x);
                let j = choose|j: int|
                    0 <= j < before.len() && (#[trigger] before[j]).node_id == x && (before[j].status
                        == NodeStatus::Pending || before[j].status == NodeStatus::Running);
                lemma_only_row(s.store, wid, j);
            }
        },
    }
}

/// In a run in which no edge and no entry is repeated, no node is ever in hand twice,
/// and what is at work waits for nothing: a recovery finds all of it.
pub proof fn law_each_node_is_in_hand_once(
    s: SupervisorView,
    id: u128,
    w: WorkflowView,
    payload: JsonView,
    spec_text: Seq<char>,
    names: Seq<Seq<char>>,
    now: Instant,
    steps: Seq<RunStep>,
)
    requires
        s.store.keyed(),
        !s.store.has(ids::id_text(id)),
        s.store.nodes_of(ids::id_text(id)).len() == 0,
        unconditional(w),
        begins_at_its_entries(w),
        w.entries.no_duplicates(),
        w.edges.no_duplicates(),
        lists_nodes(w, names),
        fresh_run(s, id, w, payload, spec_text, names, now).allows_all(w, id, steps),
    ensures
        ({
            let run = fresh_run(s, id, w, payload, spec_text, names, now).after_all(w, id, steps);
            each_once(w, id, run) && work_is_unblocked(w, run.nodes(id))
        }),
    decreases steps.len(),
{
    let fresh = fresh_run(s, id, w, payload, spec_text, names, now);
    let run = fresh.after_all(w, id, steps);
    law_run_stays_in_order(s, id, w, payload, spec_text, names, now, steps);
    if steps.len() == 0 {
        let nodes = run.nodes(id);
        law_start_loses_nothing(s, id, w, payload, spec_text, names, now);
        assert(run.owed() =~= w.entries);
        assert forall|x: Seq<char>| #[trigger] run.owed().contains(x) implies supervisor::unblocked(w, nodes, x) && supervisor::stands(
            nodes,
            x,
            NodeStatus::Pending,
        ) by {
            assert(w.names(x));
        }
    } else {
        law_run_stays_in_order(s, id, w, payload, spec_text, names, now, steps.drop_last());
        law_each_node_is_in_hand_once(s, id, w, payload, spec_text, names, now, steps.drop_last());
        lemma_step_once(w, id, fresh.after_all(w, id, steps.drop_last()), steps.last());
    }
    assert forall|x: Seq<char>| #[trigger] supervisor::stands(run.nodes(id), x, NodeStatus::Running) implies supervisor::unblocked(
        w,
        run.nodes(id),
        x,
    ) by {
        assert(run.owed().to_set().contains(x));
        assert(run.owed().contains(x));
    }
}

proof fn lemma_edges_into_once(x: DagNodeView, n: nat)
    requires
        n <= x.depends_on.len(),
        x.depends_on.no_duplicates(),
    ensures
        orchestrator::edges_into(x, n).no_duplicates(),
        forall|e: EdgeView| #[trigger]
            orchestrator::edges_into(x, n).contains(e) ==> e.to == x.id && exists|k: int|
                0 <= k < n && e.from == #[trigger] x.depends_on[k],
    decreases n,
{
    if n > 0 {
        let prior = orchestrator::edges_into(x, (n - 1) as nat);
        let all = orchestrator::edges_into(x, n);
        lemma_edges_into_once(x, (n - 1) as nat);
        assert forall|e: EdgeView| #[trigger] all.contains(e) implies e.to == x.id && exists|k: int|
            0 <= k < n && e.from == #[trigger] x.depends_on[k] by {
            let i = choose|i: int| 0 <= i < all.len() && all[i] == e;
            if i < prior.len() {
                assert(prior[i] == e);
                assert(prior.contains(e));
            } else {
                assert(e.from == x.depends_on[n - 1]);
            }
        }
        assert forall|i: int| 0 <= i < prior.len() implies #[trigger] prior[i] != all.last() by {
            assert(prior.contains(prior[i]));
        }
        assert forall|i: int, j: int| 0 <= i < all.len() && 0 <= j < all.len() && i != j implies all[i] != all[j] by {
            if i < prior.len() && j < prior.len() {
                assert(prior[i] == all[i] && prior[j] == all[j]);
            } else if i < prior.len() {
                assert(prior[i] == all[i]);
            } else {
                assert(prior[j] == all[j]);
            }
        }
    }
}

proof fn lemma_edges_once(d: Seq<DagNodeView>, n: nat)
    requires
        n <= d.len(),
        dag::sound(d),
        forall|i: int| 0 <= i < d.len() ==> (#[trigger] d[i]).depends_on.no_duplicates(),
    ensures
        orchestrator::edges_upto(d, n).no_duplicates(),
    decreases n,
{
    if n > 0 {
        let a = orchestrator::edges_upto(d, (n - 1) as nat);
        let x = d[n - 1];
        let b = orchestrator::edges_into(x, x.depends_on.len());
        lemma_edges_once(d, (n - 1) as nat);
        lemma_edges_into_once(x, x.depends_on.len());
        orchestrator::lemma_mirrored_edges(d, (n - 1) as nat);
        assert forall|i: int, j: int| 0 <= i < a.len() && 0 <= j < b.len() implies a[i] != b[j] by {
            assert(a.contains(a[i]) && b.contains(b[j]));
            let (p, k) = choose|p: int, k: int|
                0 <= p < n - 1 && 0 <= k < d[p].depends_on.len() && a[i] == (EdgeView {
                    from: #[trigger] d[p].depends_on[k],
                    to: d[p].id,
                    when: None,
                });
            assert(d[p].id != d[n - 1].id);
        }
        vstd::seq_lib::lemma_no_dup_in_concat(a, b);
    }
}

/// In the run of a plan in which no node names a dependency twice, no node is ever in
/// hand twice, and what is at work waits for nothing: a recovery finds all of it.
pub proof fn law_planned_work_can_be_recovered(
    entries: Seq<EntryView>,
    d: Seq<DagNodeView>,
    s: SupervisorView,
    id: u128,
    payload: JsonView,
    spec_text: Seq<char>,
    names: Seq<Seq<char>>,
    now: Instant,
    steps: Seq<RunStep>,
)
    requires
        orchestrator::built(entries, d) is Ok,
        forall|i: int| 0 <= i < d.len() ==> (#[trigger] d[i]).depends_on.no_duplicates(),
        s.store.keyed(),
        !s.store.has(ids::id_text(id)),
        s.store.nodes_of(ids::id_text(id)).len() == 0,
        lists_nodes(orchestrator::built(entries, d)->Ok_0.1, names),
        fresh_run(s, id, orchestrator::built(entries, d)->Ok_0.1, payload, spec_text, names, now).allows_all(
            orchestrator::built(entries, d)->Ok_0.1,
            id,
            steps,
        ),
    ensures
        ({
            let w = orchestrator::built(entries, d)->Ok_0.1;
            let run = fresh_run(s, id, w, payload, spec_text, names, now).after_all(w, id, steps);
            each_once(w, id, run) && work_is_unblocked(w, run.nodes(id))
        }),
{
    let w = orchestrator::built(entries, d)->Ok_0.1;
    law_plan_begins_at_its_entries(entries, d);
    lemma_edges_once(d, d.len());
    dag_laws::lemma_picked_ids(d, |n: DagNodeView| n.depends_on.len() == 0);
    law_each_node_is_in_hand_once(s, id, w, payload, spec_text, names, now, steps);
}

} // verus!

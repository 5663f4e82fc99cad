//! What holds of the single steps of a run.

use vstd::prelude::*;
use vstd::string::*;
use crate::clock::Instant;
use crate::envelope::{EnvelopeKind, EnvelopeView};
use crate::error::{ErrorView, OutcomeView};
use crate::execution_laws;
use crate::execution_store;
use crate::execution_store::{ExecutionStatus, NodeStatus, NodeView, RowView, StoreView};
use crate::ids;
use crate::json;
use crate::json::JsonView;
use crate::resume;
use crate::supervisor;
use crate::supervisor::{AttemptView, SupervisorView};
use crate::text;
use crate::types::AgentNodeView;
use crate::workflow::{EdgeView, WorkflowView};

verus! {

/// A node becomes ready by an edge that is followed, while it is pending, and only
/// after all nodes that it waits for are done; its input is made of their outputs.
pub proof fn law_ready_means_unblocked(
    w: WorkflowView,
    nodes: Seq<NodeView>,
    edges: Seq<EdgeView>,
    tests: Seq<bool>,
    capabilities: Seq<Seq<char>>,
    n: nat,
    i: int,
)
    requires
        n <= edges.len(),
        0 <= i < supervisor::newly_ready(w, nodes, edges, tests, capabilities, n).len(),
    ensures
        ({
            let (id, input) = supervisor::newly_ready(w, nodes, edges, tests, capabilities, n)[i];
            &&& supervisor::stands(nodes, id, NodeStatus::Pending)
            &&& supervisor::unblocked(w, nodes, id)
            &&& input == supervisor::gathered(w, nodes, id)
            &&& exists|j: int|
                0 <= j < n && (#[trigger] edges[j]).to == id && edges[j].fires(tests, capabilities)
        }),
    decreases n,
{
    let all = supervisor::newly_ready(w, nodes, edges, tests, capabilities, n);
    let prior = supervisor::newly_ready(w, nodes, edges, tests, capabilities, (n - 1) as nat);
    if i < prior.len() {
        assert(all[i] == prior[i]);
        law_ready_means_unblocked(w, nodes, edges, tests, capabilities, (n - 1) as nat, i);
    } else {
        assert(edges[n - 1].to == all[i].0);
    }
}

/// No node is forgotten: where an edge is followed to a pending node that waits for
/// nothing more, the node is ready.
pub proof fn law_no_unblocked_node_is_forgotten(
    w: WorkflowView,
    nodes: Seq<NodeView>,
    edges: Seq<EdgeView>,
    tests: Seq<bool>,
    capabilities: Seq<Seq<char>>,
    n: nat,
    j: int,
)
    requires
        n <= edges.len(),
        0 <= j < n,
        edges[j].fires(tests, capabilities),
        supervisor::stands(nodes, edges[j].to, NodeStatus::Pending),
        supervisor::unblocked(w, nodes, edges[j].to),
    ensures
        supervisor::newly_ready(w, nodes, edges, tests, capabilities, n).contains(
            (edges[j].to, supervisor::gathered(w, nodes, edges[j].to)),
        ),
    decreases n,
{
    let all = supervisor::newly_ready(w, nodes, edges, tests, capabilities, n);
    let x = (edges[j].to, supervisor::gathered(w, nodes, edges[j].to));
    if j == n - 1 {
        assert(all[all.len() - 1] == x);
    } else {
        law_no_unblocked_node_is_forgotten(w, nodes, edges, tests, capabilities, (n - 1) as nat, j);
        let prior = supervisor::newly_ready(w, nodes, edges, tests, capabilities, (n - 1) as nat);
        let k = choose|k: int| 0 <= k < prior.len() && prior[k] == x;
        assert(all[k] == x);
    }
}

/// A node that asks for a decision is parked with what ties it to its agent, and
/// nothing behind it becomes ready.
pub proof fn law_parked_node_fires_nothing(
    s: SupervisorView,
    ready: Seq<(Seq<char>, JsonView)>,
    w: WorkflowView,
    id: u128,
    node: Seq<char>,
    env: EnvelopeView,
    envelope_id: u128,
    elapsed_ms: u64,
    tests: Seq<bool>,
    capabilities: Seq<Seq<char>>,
    now: Instant,
)
    requires
        env.kind == EnvelopeKind::Suspended,
        resume::suspend_of(env.payload) is Ok,
        !supervisor::undatable(s.agents, node, resume::suspend_of(env.payload)->Ok_0, now),
        supervisor::node_in(s.store.nodes_of(ids::id_text(id)), node) is Some,
    ensures
        ({
            let step = supervisor::after_task(s, ready, w, id, node, Ok(env), envelope_id, elapsed_ms, tests, capabilities, now);
            let p = resume::suspend_of(env.payload)->Ok_0;
            let n = supervisor::node_in(step.supervisor.store.nodes_of(ids::id_text(id)), node)->0;
            &&& step.ready == ready
            &&& step.outcome is None
            &&& n.status == NodeStatus::Suspended
            &&& n.session_id == Some(p.session_id)
            &&& n.approval_id == Some(p.approval_id)
            &&& n.gate_deadline == supervisor::deadline_for(s.agents, node, p, now)
        }),
{
    let p = resume::suspend_of(env.payload)->Ok_0;
    execution_laws::lemma_nodes_with_node(
        s.store,
        ids::id_text(id),
        node,
        |n: NodeView|
            n.parked(
                p.session_id,
                p.approval_id,
                p.kind,
                p.prompt,
                supervisor::deadline_for(s.agents, node, p, now),
                now.words(),
            ),
        ids::id_text(id),
        node,
    );
}

/// A failed task, be it an error or an error answer, ends the run, and the execution
/// is kept as failed with the words of the failure.
pub proof fn law_failure_ends_the_run(
    s: SupervisorView,
    ready: Seq<(Seq<char>, JsonView)>,
    w: WorkflowView,
    id: u128,
    node: Seq<char>,
    reply: Result<EnvelopeView, ErrorView>,
    e: ErrorView,
    envelope_id: u128,
    elapsed_ms: u64,
    tests: Seq<bool>,
    capabilities: Seq<Seq<char>>,
    now: Instant,
)
    requires
        s.store.row(ids::id_text(id)) is Some,
        supervisor::task_failure(node, reply) == Some(e),
    ensures
        ({
            let step = supervisor::after_task(s, ready, w, id, node, reply, envelope_id, elapsed_ms, tests, capabilities, now);
            let record = step.supervisor.store.row(ids::id_text(id))->0.record;
            &&& step.outcome == Some(supervisor::failure_outcome(e))
            &&& step.supervisor.store.row(ids::id_text(id)) is Some
            &&& record.status == ExecutionStatus::Failed
            &&& record.error == Some(supervisor::failure_words(e))
            &&& record.result is None
        }),
{
    lemma_finished(
        s.store,
        ids::id_text(id),
        ExecutionStatus::Failed,
        None,
        Some(supervisor::failure_words(e)),
        now.words(),
    );
}

proof fn lemma_finished(
    v: StoreView,
    wid: Seq<char>,
    status: ExecutionStatus,
    result: Option<Seq<char>>,
    error: Option<Seq<char>>,
    t: Seq<char>,
)
    ensures
        v.finished(wid, status, result, error, t).nodes_of(wid) == v.nodes_of(wid),
        match v.row(wid) {
            None => v.finished(wid, status, result, error, t).row(wid) is None,
            Some(r) => v.finished(wid, status, result, error, t).row(wid) == Some(
                RowView {
                    record: execution_store::ExecutionView {
                        status,
                        result,
                        error,
                        updated_at: t,
                        ..r.record
                    },
                    ..r
                },
            ),
        },
{
    execution_store::lemma_row_with_row(
        v,
        wid,
        wid,
        |r: RowView|
            RowView {
                record: execution_store::ExecutionView {
                    status,
                    result,
                    error,
                    updated_at: t,
                    ..r.record
                },
                ..r
            },
    );
}

/// A node that waits for one other node is given the answer of that node as it
/// came, where what was kept of the answer reads back as the answer.
pub proof fn law_single_answer_is_handed_on(
    v: StoreView,
    w: WorkflowView,
    wid: Seq<char>,
    from: Seq<char>,
    to: Seq<char>,
    payload: JsonView,
    t: Seq<char>,
)
    requires
        supervisor::upstream(w, to) == seq![from],
        supervisor::node_in(v.nodes_of(wid), from) is Some,
        supervisor::stored_value(json::json_text(payload)) == payload,
    ensures
        supervisor::gathered(
            w,
            v.completed(wid, from, json::json_text(payload), t).nodes_of(wid),
            to,
        ) == payload,
        supervisor::unblocked(w, v.completed(wid, from, json::json_text(payload), t).nodes_of(wid), to),
{
    execution_laws::lemma_nodes_with_node(
        v,
        wid,
        from,
        |n: NodeView| n.completed(json::json_text(payload), t),
        wid,
        from,
    );
}

/// A node that waits for several nodes is given an object with the output of each
/// under its name, and nothing else.
pub proof fn law_several_answers_come_by_name(w: WorkflowView, nodes: Seq<NodeView>, id: Seq<char>, k: Seq<char>)
    requires
        supervisor::upstream(w, id).len() > 1,
    ensures
        supervisor::gathered(w, nodes, id) is Object,
        supervisor::gathered(w, nodes, id)->Object_0.dom().contains(k) <==> supervisor::upstream(
            w,
            id,
        ).contains(k),
        supervisor::upstream(w, id).contains(k) ==> supervisor::gathered(w, nodes, id)->Object_0[k]
            == supervisor::output_in(nodes, k),
{
}

/// Recovery hands out a node again only where it is pending or was running, and
/// all nodes that it waits for are done. A node that is done is not run twice, and
/// a parked node stays parked.
pub proof fn law_recovery_repeats_nothing(
    w: WorkflowView,
    nodes: Seq<NodeView>,
    initial: JsonView,
    n: nat,
    i: int,
)
    requires
        n <= nodes.len(),
        0 <= i < supervisor::recovered_upto(w, nodes, initial, n).len(),
    ensures
        ({
            let id = supervisor::recovered_upto(w, nodes, initial, n)[i].0;
            &&& supervisor::unblocked(w, nodes, id)
            &&& exists|j: int|
                0 <= j < n && (#[trigger] nodes[j]).node_id == id && (nodes[j].status
                    == NodeStatus::Pending || nodes[j].status == NodeStatus::Running)
        }),
    decreases n,
{
    let all = supervisor::recovered_upto(w, nodes, initial, n);
    let prior = supervisor::recovered_upto(w, nodes, initial, (n - 1) as nat);
    if i < prior.len() {
        assert(all[i] == prior[i]);
        law_recovery_repeats_nothing(w, nodes, initial, (n - 1) as nat, i);
        let j = choose|j: int|
            0 <= j < n - 1 && (#[trigger] nodes[j]).node_id == all[i].0 && (nodes[j].status
                == NodeStatus::Pending || nodes[j].status == NodeStatus::Running);
        assert(nodes[j].node_id == all[i].0);
    } else {
        assert(nodes[n - 1].node_id == all[i].0);
    }
}

/// Recovery forgets nothing: every node that is pending or was running and waits
/// for nothing more is handed out.
pub proof fn law_recovery_forgets_nothing(
    w: WorkflowView,
    nodes: Seq<NodeView>,
    initial: JsonView,
    n: nat,
    j: int,
)
    requires
        n <= nodes.len(),
        0 <= j < n,
        nodes[j].status == NodeStatus::Pending || nodes[j].status == NodeStatus::Running,
        supervisor::unblocked(w, nodes, nodes[j].node_id),
    ensures
        supervisor::recovered_upto(w, nodes, initial, n).contains(
            (
                nodes[j].node_id,
                supervisor::recovered_input(w, nodes, initial, nodes[j].node_id),
            ),
        ),
    decreases n,
{
    let all = supervisor::recovered_upto(w, nodes, initial, n);
    let x = (nodes[j].node_id, supervisor::recovered_input(w, nodes, initial, nodes[j].node_id));
    if j == n - 1 {
        assert(all[all.len() - 1] == x);
    } else {
        law_recovery_forgets_nothing(w, nodes, initial, (n - 1) as nat, j);
        let prior = supervisor::recovered_upto(w, nodes, initial, (n - 1) as nat);
        let k = choose|k: int| 0 <= k < prior.len() && prior[k] == x;
        assert(all[k] == x);
    }
}

/// A decision is taken once. Once the agent has answered it in full, the node is
/// done, the execution runs, and a second decision for the node is refused.
pub proof fn law_decision_is_taken_once(
    s: SupervisorView,
    w: WorkflowView,
    id: u128,
    node: Seq<char>,
    env: EnvelopeView,
    tests: Seq<bool>,
    capabilities: Seq<Seq<char>>,
    now: Instant,
)
    requires
        supervisor::resumable(s, ids::id_text(id), node) is Ok,
        env.kind != EnvelopeKind::Suspended,
        env.kind != EnvelopeKind::Error,
    ensures
        ({
            let wid = ids::id_text(id);
            let step = supervisor::after_resume(s, w, id, node, Ok(env), tests, capabilities, now);
            &&& step.outcome is None
            &&& supervisor::stands(step.supervisor.store.nodes_of(wid), node, NodeStatus::Done)
            &&& step.supervisor.store.row(wid)->0.record.status == ExecutionStatus::Running
            &&& supervisor::resumable(step.supervisor, wid, node)
                == Err::<(Seq<char>, Seq<char>), Seq<char>>("node is not suspended"@)
        }),
{
    let wid = ids::id_text(id);
    let output = json::json_text(env.payload);
    let done = s.store.completed(wid, node, output, now.words());
    execution_laws::lemma_nodes_with_node(
        s.store,
        wid,
        node,
        |n: NodeView| n.completed(output, now.words()),
        wid,
        node,
    );
    lemma_finished(done, wid, ExecutionStatus::Running, None, None, now.words());
}

/// An agent may answer a decision with another question: the node is parked anew,
/// the execution is suspended, no driver is left with it, and the new decision can
/// be delivered.
pub proof fn law_question_after_question(
    s: SupervisorView,
    w: WorkflowView,
    id: u128,
    node: Seq<char>,
    env: EnvelopeView,
    tests: Seq<bool>,
    capabilities: Seq<Seq<char>>,
    now: Instant,
)
    requires
        supervisor::resumable(s, ids::id_text(id), node) is Ok,
        s.store.row(ids::id_text(id))->0.claimed_by == Some(s.driver),
        env.kind == EnvelopeKind::Suspended,
        resume::suspend_of(env.payload) is Ok,
        !supervisor::undatable(s.agents, node, resume::suspend_of(env.payload)->Ok_0, now),
    ensures
        ({
            let wid = ids::id_text(id);
            let p = resume::suspend_of(env.payload)->Ok_0;
            let step = supervisor::after_resume(s, w, id, node, Ok(env), tests, capabilities, now);
            let row = step.supervisor.store.row(wid)->0;
            &&& step.outcome == Some(OutcomeView::Suspended { workflow_id: id })
            &&& row.record.status == ExecutionStatus::Suspended
            &&& row.claimed_by is None
            &&& supervisor::resumable(step.supervisor, wid, node)
                == Ok::<(Seq<char>, Seq<char>), Seq<char>>((p.session_id, p.approval_id))
        }),
{
    let wid = ids::id_text(id);
    let p = resume::suspend_of(env.payload)->Ok_0;
    let parked = s.parked(id, node, p, now);
    execution_laws::lemma_nodes_with_node(
        s.store,
        wid,
        node,
        |n: NodeView|
            n.parked(
                p.session_id,
                p.approval_id,
                p.kind,
                p.prompt,
                supervisor::deadline_for(s.agents, node, p, now),
                now.words(),
            ),
        wid,
        node,
    );
    lemma_finished(parked.store, wid, ExecutionStatus::Suspended, None, None, now.words());
    lemma_released(
        parked.store.finished(wid, ExecutionStatus::Suspended, None, None, now.words()),
        wid,
        s.driver,
    );
}

proof fn lemma_released(v: StoreView, wid: Seq<char>, driver: Seq<char>)
    ensures
        v.released(wid, driver).nodes_of(wid) == v.nodes_of(wid),
        match v.row(wid) {
            None => v.released(wid, driver).row(wid) is None,
            Some(r) => v.released(wid, driver).row(wid) == Some(
                if r.claimed_by == Some(driver) {
                    RowView { claimed_by: None, lease_expires_at: None, ..r }
                } else {
                    r
                },
            ),
        },
{
    execution_store::lemma_row_with_row(
        v,
        wid,
        wid,
        |r: RowView|
            if r.claimed_by == Some(driver) {
                RowView { claimed_by: None, lease_expires_at: None, ..r }
            } else {
                r
            },
    );
}

/// A run that comes to rest is suspended exactly where a node waits for a decision.
/// Otherwise it has succeeded, and its result holds, under the name of each node
/// that no edge leaves and that has an output, that output, and nothing else.
pub proof fn law_result_of_a_run(s: SupervisorView, w: WorkflowView, id: u128, t: Seq<char>, x: Seq<char>)
    requires
        s.store.row(ids::id_text(id)) is Some,
        s.store.keyed(),
    ensures
        ({
            let nodes = s.store.nodes_of(ids::id_text(id));
            let (after, outcome) = supervisor::finalized(s, w, id, t);
            let record = after.store.row(ids::id_text(id))->0.record;
            if supervisor::some_suspended(nodes) {
                &&& outcome == Ok::<OutcomeView, ErrorView>(
                    OutcomeView::Suspended { workflow_id: id },
                )
                &&& record.status == ExecutionStatus::Suspended
            } else {
                let ends = !supervisor::is_source(w, x) && supervisor::node_in(nodes, x) is Some
                    && supervisor::node_in(nodes, x)->0.output is Some;
                let result = supervisor::terminal_outputs(w, nodes);
                &&& outcome == Ok::<OutcomeView, ErrorView>(
                    OutcomeView::Success(JsonView::Object(result)),
                )
                &&& record.status == ExecutionStatus::Succeeded
                &&& record.result == Some(json::json_text(JsonView::Object(result)))
                &&& result.dom().contains(x) <==> ends
                &&& ends ==> result[x] == supervisor::output_in(nodes, x)
            }
        }),
{
    let wid = ids::id_text(id);
    let nodes = s.store.nodes_of(wid);
    lemma_finished(s.store, wid, ExecutionStatus::Suspended, None, None, t);
    let result = JsonView::Object(supervisor::terminal_outputs(w, nodes));
    lemma_finished(s.store, wid, ExecutionStatus::Succeeded, Some(json::json_text(result)), None, t);
    let p = |n: NodeView| n.workflow_id == wid;
    lemma_filtered_apart(s.store.nodes, p);
    lemma_terminals(w, nodes, x);
    let q = |n: NodeView| n.node_id == x;
    execution_laws::lemma_first_is(nodes, q);
    match supervisor::node_in(nodes, x) {
        Some(n) => {
            let k = choose|k: int| 0 <= k < nodes.len() && nodes[k] == n;
            assert(nodes[k].node_id == x);
        },
        None => {
            assert forall|k: int| 0 <= k < nodes.len() implies (#[trigger] nodes[k]).node_id != x by {
                assert(!q(nodes[k]));
            }
        },
    }
}

/// The nodes of one execution, none of which share a name.
pub open spec fn apart(s: Seq<NodeView>) -> bool {
    forall|i: int, j: int|
        0 <= i < j < s.len() ==> (#[trigger] s[i]).node_id != (#[trigger] s[j]).node_id
}

/// Rows picked out of one execution share no name where no two of its rows do.
pub proof fn lemma_filtered_apart(s: Seq<NodeView>, p: spec_fn(NodeView) -> bool)
    requires
        forall|a: NodeView, b: NodeView| #[trigger] p(a) && #[trigger] p(b) ==> a.workflow_id == b.workflow_id,
        forall|i: int, j: int|
            0 <= i < j < s.len() ==> !((#[trigger] s[i]).workflow_id == (
            #[trigger] s[j]).workflow_id && s[i].node_id == s[j].node_id),
    ensures
        apart(s.filter(p)),
        forall|i: int| 0 <= i < s.filter(p).len() ==> s.contains(#[trigger] s.filter(p)[i]) && p(s.filter(p)[i]),
    decreases s.len(),
{
    reveal(Seq::filter);
    if s.len() > 0 {
        let t = s.drop_last();
        assert forall|i: int, j: int| 0 <= i < j < t.len() implies !((#[trigger] t[i]).workflow_id == (
        #[trigger] t[j]).workflow_id && t[i].node_id == t[j].node_id) by {
            assert(t[i] == s[i] && t[j] == s[j]);
        }
        lemma_filtered_apart(t, p);
        let f = s.filter(p);
        let g = t.filter(p);
        assert forall|i: int| 0 <= i < f.len() implies s.contains(#[trigger] f[i]) && p(f[i]) by {
            if i < g.len() {
                assert(f[i] == g[i]);
                let k = choose|k: int| 0 <= k < t.len() && t[k] == g[i];
                assert(s[k] == f[i]);
            } else {
                assert(s[s.len() - 1] == f[i]);
            }
        }
        assert forall|i: int, j: int| 0 <= i < j < f.len() implies (#[trigger] f[i]).node_id != (#[trigger] f[j]).node_id by {
            assert(f[i] == g[i]);
            if j < g.len() {
                assert(f[j] == g[j]);
            } else {
                let k = choose|k: int| 0 <= k < t.len() && t[k] == g[i];
                assert(s[k] == f[i]);
                assert(s[s.len() - 1] == f[j]);
                assert(p(f[i]) && p(f[j]));
            }
        }
    }
}

proof fn lemma_terminals(w: WorkflowView, s: Seq<NodeView>, x: Seq<char>)
    requires
        apart(s),
    ensures
        supervisor::terminal_outputs(w, s).dom().contains(x) ==> exists|i: int|
            0 <= i < s.len() && (#[trigger] s[i]).node_id == x,
        forall|i: int|
            0 <= i < s.len() && (#[trigger] s[i]).node_id == x ==> {
                &&& supervisor::terminal_outputs(w, s).dom().contains(x) <==> !supervisor::is_source(
                    w,
                    x,
                ) && s[i].output is Some
                &&& supervisor::terminal_outputs(w, s).dom().contains(x)
                    ==> supervisor::terminal_outputs(w, s)[x] == supervisor::stored_value(
                    s[i].output->0,
                )
            },
    decreases s.len(),
{
    if s.len() > 0 {
        let t = s.drop_last();
        assert forall|i: int, j: int| 0 <= i < j < t.len() implies (#[trigger] t[i]).node_id != (#[trigger] t[j]).node_id by {
            assert(t[i] == s[i] && t[j] == s[j]);
        }
        lemma_terminals(w, t, x);
        let last = s.last();
        assert(s[s.len() - 1] == last);
        if supervisor::terminal_outputs(w, t).dom().contains(x) {
            let i = choose|i: int| 0 <= i < t.len() && (#[trigger] t[i]).node_id == x;
            assert(s[i] == t[i]);
        }
        assert forall|i: int| 0 <= i < s.len() && (#[trigger] s[i]).node_id == x implies {
            &&& supervisor::terminal_outputs(w, s).dom().contains(x) <==> !supervisor::is_source(w, x)
                && s[i].output is Some
            &&& supervisor::terminal_outputs(w, s).dom().contains(x) ==> supervisor::terminal_outputs(
                w,
                s,
            )[x] == supervisor::stored_value(s[i].output->0)
        } by {
            if i < t.len() {
                assert(t[i] == s[i]);
                assert(last.node_id != x);
            } else if supervisor::terminal_outputs(w, t).dom().contains(x) {
                let k = choose|k: int| 0 <= k < t.len() && (#[trigger] t[k]).node_id == x;
                assert(s[k] == t[k]);
            }
        }
    }
}

/// A task is tried once and then at most as often as its node allows retries. Only
/// after that comes the fallback, and a restart only where the node asks for it.
pub proof fn law_attempts_are_bounded(
    agents: Map<Seq<char>, AgentNodeView>,
    node: AgentNodeView,
    attempt: nat,
    reply: Result<EnvelopeView, ErrorView>,
)
    ensures
        ({
            let j = supervisor::judged(agents, node, attempt, reply);
            &&& j is Retry ==> attempt < node.failure.retries
            &&& j matches AttemptView::Retry { restart } ==> restart == node.failure.restart_on_failure
            &&& j is Fallback ==> attempt >= node.failure.retries && node.failure.fallback is Some
            &&& attempt >= node.failure.retries && node.failure.fallback is None ==> j is Settled
            &&& supervisor::attempt_failure(reply) is None ==> j == AttemptView::Settled(reply)
        }),
{
}

/// A run begins with the execution in the hands of its driver: until the hold has
/// ended, no other driver may take it.
pub proof fn law_run_begins_held(
    s: SupervisorView,
    id: u128,
    w: WorkflowView,
    payload: JsonView,
    spec_text: Seq<char>,
    names: Seq<Seq<char>>,
    now: Instant,
    other: Seq<char>,
    later: Seq<char>,
)
    requires
        !s.store.has(ids::id_text(id)),
        other != s.driver,
    ensures
        supervisor::begun(s, id, w, payload, spec_text, names, now).store.claimable(
            ids::id_text(id),
            other,
            later,
        ) <==> text::lex_lt(now.lease_end().words(), later),
{
    let wid = ids::id_text(id);
    let made = s.store.created(wid, spec_text, json::json_text(payload), names, now.words());
    let p = |r: RowView| r.record.workflow_id == wid;
    assert forall|i: int| 0 <= i < s.store.executions.len() implies !p(#[trigger] made.executions[i]) by {
        assert(made.executions[i] == s.store.executions[i]);
    }
    execution_store::lemma_first_at(made.executions, p, s.store.executions.len() as int);
    execution_laws::law_hold_keeps_others_out(
        made,
        wid,
        s.driver,
        other,
        now.lease_end().words(),
        later,
    );
}

/// A run that its driver has concluded is free for every driver.
pub proof fn law_concluded_run_is_free(s: SupervisorView, id: u128, other: Seq<char>, now: Seq<char>)
    requires
        s.store.row(ids::id_text(id)) is Some,
        s.store.row(ids::id_text(id))->0.claimed_by == Some(s.driver),
    ensures
        s.released(ids::id_text(id)).store.claimable(ids::id_text(id), other, now),
{
    lemma_released(s.store, ids::id_text(id), s.driver);
}

/// No answer, be it to a task or to a decision, gives two executions one id or two
/// nodes of one execution, and none changes the agents or the driver.
pub proof fn law_answers_keep_the_rows_keyed(
    s: SupervisorView,
    ready: Seq<(Seq<char>, JsonView)>,
    w: WorkflowView,
    id: u128,
    node: Seq<char>,
    reply: Result<EnvelopeView, ErrorView>,
    envelope_id: u128,
    elapsed_ms: u64,
    tests: Seq<bool>,
    capabilities: Seq<Seq<char>>,
    now: Instant,
)
    requires
        s.store.keyed(),
    ensures
        ({
            let task = supervisor::after_task(s, ready, w, id, node, reply, envelope_id, elapsed_ms, tests, capabilities, now);
            let resumed = supervisor::after_resume(s, w, id, node, reply, tests, capabilities, now);
            &&& task.supervisor.store.keyed()
            &&& task.supervisor.agents == s.agents
            &&& task.supervisor.driver == s.driver
            &&& resumed.supervisor.store.keyed()
            &&& resumed.supervisor.agents == s.agents
            &&& resumed.supervisor.driver == s.driver
        }),
{
}

/// Whatever labels a node has, its agent is told the true execution and node.
pub proof fn law_reserved_labels_are_true(labels: Map<Seq<char>, Seq<char>>, wid: Seq<char>, node: Seq<char>, k: Seq<char>)
    ensures
        ({
            let sent = supervisor::task_labels(labels, wid, node);
            &&& sent["trace_id"@] == wid
            &&& sent["workflow_id"@] == wid
            &&& sent["node"@] == node
            &&& k != "trace_id"@ && k != "workflow_id"@ && k != "node"@ && labels.dom().contains(k)
                ==> sent[k] == labels[k]
        }),
{
    reveal_strlit("trace_id");
    reveal_strlit("workflow_id");
    reveal_strlit("node");
    assert("trace_id"@.len() == 8 && "workflow_id"@.len() == 11 && "node"@.len() == 4);
}

/// The labels and the id of an answer are not trusted: they change nothing.
pub proof fn law_labels_of_answers_change_nothing(
    s: SupervisorView,
    ready: Seq<(Seq<char>, JsonView)>,
    w: WorkflowView,
    id: u128,
    node: Seq<char>,
    env: EnvelopeView,
    labels: Map<Seq<char>, Seq<char>>,
    other: u128,
    envelope_id: u128,
    elapsed_ms: u64,
    tests: Seq<bool>,
    capabilities: Seq<Seq<char>>,
    now: Instant,
)
    ensures
        ({
            let relabelled = EnvelopeView { id: other, metadata: labels, ..env };
            &&& supervisor::after_task(s, ready, w, id, node, Ok(env), envelope_id, elapsed_ms, tests, capabilities, now)
                == supervisor::after_task(s, ready, w, id, node, Ok(relabelled), envelope_id, elapsed_ms, tests, capabilities, now)
            &&& supervisor::after_resume(s, w, id, node, Ok(env), tests, capabilities, now)
                == supervisor::after_resume(s, w, id, node, Ok(relabelled), tests, capabilities, now)
        }),
{
}

/// A node becomes ready at the answer of the last node that it waits for, and not
/// before: until then it was blocked.
pub proof fn law_ready_at_the_last_answer(
    w: WorkflowView,
    before: Seq<NodeView>,
    after: Seq<NodeView>,
    node: Seq<char>,
    tests: Seq<bool>,
    capabilities: Seq<Seq<char>>,
    i: int,
)
    requires
        !supervisor::stands(before, node, NodeStatus::Done),
        0 <= i < supervisor::newly_ready(
            w,
            after,
            w.outgoing(node),
            tests,
            capabilities,
            w.outgoing(node).len(),
        ).len(),
    ensures
        !supervisor::unblocked(
            w,
            before,
            supervisor::newly_ready(
                w,
                after,
                w.outgoing(node),
                tests,
                capabilities,
                w.outgoing(node).len(),
            )[i].0,
        ),
{
    let edges = w.outgoing(node);
    law_ready_means_unblocked(w, after, edges, tests, capabilities, edges.len(), i);
    let x = supervisor::newly_ready(w, after, edges, tests, capabilities, edges.len())[i].0;
    let j = choose|j: int|
        0 <= j < edges.len() && (#[trigger] edges[j]).to == x && edges[j].fires(tests, capabilities);
    let out = |e: EdgeView| e.from == node;
    let into = |e: EdgeView| e.to == x;
    w.edges.lemma_filter_pred(out, j);
    w.edges.lemma_filter_contains_rev(out, edges[j]);
    let n = choose|n: int| 0 <= n < w.edges.len() && w.edges[n] == edges[j];
    w.edges.lemma_filter_contains(into, n);
    let k = choose|k: int| 0 <= k < w.incoming(x).len() && w.incoming(x)[k] == edges[j];
    assert(supervisor::upstream(w, x)[k] == node);
}

/// The answer of one node, be it to a task or to a decision, changes no other node
/// of the execution and nothing of other executions: what is done stays done.
pub proof fn law_answer_touches_one_node(
    s: SupervisorView,
    ready: Seq<(Seq<char>, JsonView)>,
    w: WorkflowView,
    id: u128,
    node: Seq<char>,
    reply: Result<EnvelopeView, ErrorView>,
    envelope_id: u128,
    elapsed_ms: u64,
    tests: Seq<bool>,
    capabilities: Seq<Seq<char>>,
    now: Instant,
    x: Seq<char>,
    other: Seq<char>,
)
    requires
        x != node,
        other != ids::id_text(id),
    ensures
        ({
            let wid = ids::id_text(id);
            let task = supervisor::after_task(s, ready, w, id, node, reply, envelope_id, elapsed_ms, tests, capabilities, now).supervisor.store;
            let resumed = supervisor::after_resume(s, w, id, node, reply, tests, capabilities, now).supervisor.store;
            &&& supervisor::node_in(task.nodes_of(wid), x) == supervisor::node_in(s.store.nodes_of(wid), x)
            &&& task.nodes_of(other) == s.store.nodes_of(other)
            &&& task.row(other) == s.store.row(other)
            &&& supervisor::node_in(resumed.nodes_of(wid), x) == supervisor::node_in(s.store.nodes_of(wid), x)
            &&& resumed.nodes_of(other) == s.store.nodes_of(other)
            &&& resumed.row(other) == s.store.row(other)
        }),
{
    let wid = ids::id_text(id);
    let t = now.words();
    match reply {
        Err(e) => {
            lemma_finish_apart(s.store, wid, other, ExecutionStatus::Failed, None, Some(supervisor::failure_words(e)), t, s.driver);
            lemma_finish_apart(s.store, wid, other, ExecutionStatus::Failed, None, Some(e.words()), t, s.driver);
        },
        Ok(env) => {
            let output = json::json_text(env.payload);
            let done = s.store.completed(wid, node, output, t);
            execution_laws::lemma_nodes_with_node(
                s.store,
                wid,
                node,
                |n: NodeView| n.completed(output, t),
                other,
                x,
            );
            lemma_finish_apart(done, wid, other, ExecutionStatus::Failed, None, Some(supervisor::failure_words(supervisor::vanished())), t, s.driver);
            let again = done.finished(wid, ExecutionStatus::Running, None, None, t);
            lemma_finish_apart(done, wid, other, ExecutionStatus::Running, None, None, t, s.driver);
            lemma_finish_apart(again, wid, other, ExecutionStatus::Failed, None, Some(supervisor::vanished().words()), t, s.driver);
            lemma_finish_apart(s.store, wid, other, ExecutionStatus::Failed, None, Some(output), t, s.driver);
            lemma_released_apart(s.store, wid, other, s.driver);
            match resume::suspend_of(env.payload) {
                Err(complaint) => {
                    lemma_finish_apart(s.store, wid, other, ExecutionStatus::Failed, None, Some(supervisor::failure_words(supervisor::malformed(node, complaint))), t, s.driver);
                },
                Ok(p) => {
                    let e = supervisor::no_date(node);
                    lemma_finish_apart(s.store, wid, other, ExecutionStatus::Failed, None, Some(supervisor::failure_words(e)), t, s.driver);
                    lemma_finish_apart(s.store, wid, other, ExecutionStatus::Failed, None, Some(e.words()), t, s.driver);
                    let deadline = supervisor::deadline_for(s.agents, node, p, now);
                    execution_laws::lemma_nodes_with_node(
                        s.store,
                        wid,
                        node,
                        |n: NodeView|
                            n.parked(p.session_id, p.approval_id, p.kind, p.prompt, deadline, t),
                        other,
                        x,
                    );
                    let parked = s.parked(id, node, p, now).store;
                    lemma_finish_apart(parked, wid, other, ExecutionStatus::Suspended, None, None, t, s.driver);
                },
            }
        },
    }
}

proof fn lemma_released_apart(v: StoreView, wid: Seq<char>, other: Seq<char>, driver: Seq<char>)
    requires
        other != wid,
    ensures
        v.released(wid, driver).nodes_of(wid) == v.nodes_of(wid),
        v.released(wid, driver).nodes_of(other) == v.nodes_of(other),
        v.released(wid, driver).row(other) == v.row(other),
{
    lemma_released(v, wid, driver);
    execution_store::lemma_row_with_row(
        v,
        wid,
        other,
        |r: RowView|
            if r.claimed_by == Some(driver) {
                RowView { claimed_by: None, lease_expires_at: None, ..r }
            } else {
                r
            },
    );
}

/// Closing an execution, and giving it up after that, changes no node and no other
/// execution.
proof fn lemma_finish_apart(
    v: StoreView,
    wid: Seq<char>,
    other: Seq<char>,
    status: ExecutionStatus,
    result: Option<Seq<char>>,
    error: Option<Seq<char>>,
    t: Seq<char>,
    driver: Seq<char>,
)
    requires
        other != wid,
    ensures
        ({
            let f = v.finished(wid, status, result, error, t);
            &&& f.nodes_of(wid) == v.nodes_of(wid)
            &&& f.nodes_of(other) == v.nodes_of(other)
            &&& f.row(other) == v.row(other)
            &&& f.released(wid, driver).nodes_of(wid) == v.nodes_of(wid)
            &&& f.released(wid, driver).nodes_of(other) == v.nodes_of(other)
            &&& f.released(wid, driver).row(other) == v.row(other)
        }),
{
    lemma_finished(v, wid, status, result, error, t);
    execution_store::lemma_row_with_row(
        v,
        wid,
        other,
        |r: RowView|
            RowView {
                record: execution_store::ExecutionView {
                    status,
                    result,
                    error,
                    updated_at: t,
                    ..r.record
                },
                ..r
            },
    );
    lemma_released_apart(v.finished(wid, status, result, error, t), wid, other, driver);
}

} // verus!

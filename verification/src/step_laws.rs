//! What the steps of a run do, told by the edges of the workflow and the rows of the
//! execution.

use vstd::prelude::*;
use crate::clock;
use crate::clock::Instant;
use crate::envelope::{EnvelopeKind, EnvelopeView};
use crate::error::{ErrorView, OutcomeView};
use crate::events::EventView;
use crate::execution_laws;
use crate::execution_store;
use crate::execution_store::{ExecutionStatus, NodeStatus, NodeView, RowView, StoreView};
use crate::ids;
use crate::json;
use crate::json::JsonView;
use crate::resume;
use crate::run_laws;
use crate::supervisor;
use crate::supervisor::{AttemptView, SupervisorView};
use crate::supervisor_laws;
use crate::types::AgentNodeView;
use crate::workflow::{EdgeView, WorkflowView};

verus! {

/// What a kept text stands for: the value that is read in it, and `null` where it is
/// no JSON.
pub open spec fn reads_as(text: Seq<char>, v: JsonView) -> bool {
    match json::json_parse(text) {
        Ok(x) => v == x,
        Err(_) => v == JsonView::Null,
    }
}

/// What a kept output stands for, `null` where none is kept.
pub open spec fn kept_as(output: Option<Seq<char>>, v: JsonView) -> bool {
    match output {
        Some(text) => reads_as(text, v),
        None => v == JsonView::Null,
    }
}

/// Whether the row `j` is that of the node `x` of an execution.
pub open spec fn row_is(v: StoreView, j: int, wid: Seq<char>, x: Seq<char>) -> bool {
    0 <= j < v.nodes.len() && v.nodes[j].workflow_id == wid && v.nodes[j].node_id == x
}

/// Whether a node of an execution is done.
pub open spec fn is_done(v: StoreView, wid: Seq<char>, x: Seq<char>) -> bool {
    exists|j: int| #[trigger] row_is(v, j, wid, x) && v.nodes[j].status == NodeStatus::Done
}

/// Whether an edge leads to a node.
pub open spec fn leads_to(w: WorkflowView, k: int, x: Seq<char>) -> bool {
    0 <= k < w.edges.len() && w.edges[k].to == x
}

/// Whether a node is given what it should be: the payload of the run where no edge
/// leads to it, the output of the node before it where one edge does, and otherwise an
/// object with the output of each node before it under its name, and nothing else.
pub open spec fn given_rightly(
    w: WorkflowView,
    v: StoreView,
    wid: Seq<char>,
    initial: JsonView,
    x: Seq<char>,
    input: JsonView,
) -> bool {
    &&& (forall|k: int| !#[trigger] leads_to(w, k, x)) ==> input == initial
    &&& forall|k: int, j: int|
        #![trigger leads_to(w, k, x), row_is(v, j, wid, w.edges[k].from)]
        leads_to(w, k, x) && row_is(v, j, wid, w.edges[k].from) ==> {
            ||| kept_as(v.nodes[j].output, input) && (forall|l: int| #[trigger]
                leads_to(w, l, x) ==> l == k)
            ||| input matches JsonView::Object(m) && m.dom().contains(w.edges[k].from) && kept_as(
                v.nodes[j].output,
                m[w.edges[k].from],
            ) && (exists|l: int| #[trigger] leads_to(w, l, x) && l != k)
        }
    &&& forall|k: int, l: int|
        #![trigger leads_to(w, k, x), leads_to(w, l, x)]
        leads_to(w, k, x) && leads_to(w, l, x) && k != l ==> {
            &&& input matches JsonView::Object(m)
            &&& forall|y: Seq<char>| #[trigger]
                (input->Object_0).dom().contains(y) ==> exists|i: int| #[trigger]
                    leads_to(w, i, x) && w.edges[i].from == y
        }
}

/// Whether all nodes before a node are done.
pub open spec fn may_begin(w: WorkflowView, v: StoreView, wid: Seq<char>, x: Seq<char>) -> bool {
    forall|k: int| #[trigger] leads_to(w, k, x) ==> is_done(v, wid, w.edges[k].from)
}

/// A row that is there is the one that is found, where no two rows share an id.
proof fn lemma_found_row(v: StoreView, wid: Seq<char>, x: Seq<char>, j: int)
    requires
        v.keyed(),
        row_is(v, j, wid, x),
    ensures
        supervisor::node_in(v.nodes_of(wid), x) == Some(v.nodes[j]),
{
    let q = |n: NodeView| n.workflow_id == wid;
    v.nodes.lemma_filter_contains(q, j);
    let i = choose|i: int| 0 <= i < v.nodes_of(wid).len() && v.nodes_of(wid)[i] == v.nodes[j];
    run_laws::lemma_only_row(v, wid, i);
}

/// A row that is found is there.
proof fn lemma_row_found(v: StoreView, wid: Seq<char>, x: Seq<char>) -> (j: int)
    requires
        supervisor::node_in(v.nodes_of(wid), x) is Some,
    ensures
        row_is(v, j, wid, x),
        supervisor::node_in(v.nodes_of(wid), x) == Some(v.nodes[j]),
{
    let nodes = v.nodes_of(wid);
    let q = |n: NodeView| n.workflow_id == wid;
    let i = run_laws::lemma_row_of(nodes, x);
    v.nodes.lemma_filter_pred(q, i);
    v.nodes.lemma_filter_contains_rev(q, nodes[i]);
    choose|j: int| 0 <= j < v.nodes.len() && v.nodes[j] == nodes[i]
}

proof fn lemma_picked<A>(s: Seq<A>, p: spec_fn(A) -> bool)
    ensures
        s.filter(p).len() == 0 <==> forall|k: int| 0 <= k < s.len() ==> !p(#[trigger] s[k]),
        s.filter(p).len() >= 2 <==> exists|k: int, l: int|
            #![trigger s[k], s[l]]
            0 <= k < l < s.len() && p(s[k]) && p(s[l]),
    decreases s.len(),
{
    reveal(Seq::filter);
    if s.len() > 0 {
        let t = s.drop_last();
        let n = s.len() - 1;
        lemma_picked(t, p);
        assert forall|k: int| 0 <= k < n implies #[trigger] s[k] == t[k] by {}
        if t.filter(p).len() > 0 {
            assert(exists|k: int| 0 <= k < n && p(#[trigger] t[k]));
        }
        if exists|k: int, l: int|
            #![trigger t[k], t[l]]
            0 <= k < l < t.len() && p(t[k]) && p(t[l]) {
            let (k, l) = choose|k: int, l: int|
                #![trigger t[k], t[l]]
                0 <= k < l < t.len() && p(t[k]) && p(t[l]);
            assert(p(s[k]) && p(s[l]));
        }
        if exists|k: int, l: int|
            #![trigger s[k], s[l]]
            0 <= k < l < s.len() && p(s[k]) && p(s[l]) {
            let (k, l) = choose|k: int, l: int|
                #![trigger s[k], s[l]]
                0 <= k < l < s.len() && p(s[k]) && p(s[l]);
            assert(p(t[k]));
            if l < n {
                assert(p(t[l]));
            }
        }
        if t.filter(p).len() > 0 && p(s[n]) {
            let k = choose|k: int| 0 <= k < n && p(#[trigger] t[k]);
            assert(p(s[k]) && p(s[n]));
        }
    }
}

/// The nodes that a node waits for are those at the sources of the edges to it.
proof fn lemma_waits_for(w: WorkflowView, x: Seq<char>, y: Seq<char>)
    ensures
        supervisor::upstream(w, x).contains(y) <==> exists|k: int| #[trigger]
            leads_to(w, k, x) && w.edges[k].from == y,
        supervisor::upstream(w, x).len() == 0 <==> forall|k: int| !#[trigger] leads_to(w, k, x),
        supervisor::upstream(w, x).len() >= 2 <==> exists|k: int, l: int|
            #![trigger leads_to(w, k, x), leads_to(w, l, x)]
            k != l && leads_to(w, k, x) && leads_to(w, l, x),
        forall|i: int|
            0 <= i < supervisor::upstream(w, x).len() ==> supervisor::upstream(w, x).contains(
                #[trigger] supervisor::upstream(w, x)[i],
            ),
{
    let into = |e: EdgeView| e.to == x;
    let deps = supervisor::upstream(w, x);
    lemma_picked(w.edges, into);
    if deps.contains(y) {
        let k = choose|k: int| 0 <= k < deps.len() && deps[k] == y;
        let e = w.incoming(x)[k];
        w.edges.lemma_filter_pred(into, k);
        w.edges.lemma_filter_contains_rev(into, e);
        let n = choose|n: int| 0 <= n < w.edges.len() && w.edges[n] == e;
        assert(leads_to(w, n, x) && w.edges[n].from == y);
    }
    if exists|k: int| #[trigger] leads_to(w, k, x) && w.edges[k].from == y {
        let k = choose|k: int| #[trigger] leads_to(w, k, x) && w.edges[k].from == y;
        w.edges.lemma_filter_contains(into, k);
        let n = choose|n: int| 0 <= n < w.incoming(x).len() && w.incoming(x)[n] == w.edges[k];
        assert(deps[n] == y);
    }
    if deps.len() == 0 {
        assert forall|k: int| !#[trigger] leads_to(w, k, x) by {
            if leads_to(w, k, x) {
                assert(!into(w.edges[k]));
            }
        }
    }
    if forall|k: int| !#[trigger] leads_to(w, k, x) {
        assert forall|k: int| 0 <= k < w.edges.len() implies !into(#[trigger] w.edges[k]) by {
            assert(!leads_to(w, k, x));
        }
    }
    if deps.len() >= 2 {
        let (k, l) = choose|k: int, l: int|
            #![trigger w.edges[k], w.edges[l]]
            0 <= k < l < w.edges.len() && into(w.edges[k]) && into(w.edges[l]);
        assert(leads_to(w, k, x) && leads_to(w, l, x));
    }
    if exists|k: int, l: int|
        #![trigger leads_to(w, k, x), leads_to(w, l, x)]
        k != l && leads_to(w, k, x) && leads_to(w, l, x) {
        let (k, l) = choose|k: int, l: int|
            #![trigger leads_to(w, k, x), leads_to(w, l, x)]
            k != l && leads_to(w, k, x) && leads_to(w, l, x);
        if k < l {
            assert(into(w.edges[k]) && into(w.edges[l]));
        } else {
            assert(into(w.edges[l]) && into(w.edges[k]));
        }
    }
}

/// A node waits for nothing exactly where all nodes before it are done.
proof fn lemma_may_begin(w: WorkflowView, v: StoreView, wid: Seq<char>, x: Seq<char>)
    requires
        v.keyed(),
    ensures
        supervisor::unblocked(w, v.nodes_of(wid), x) <==> may_begin(w, v, wid, x),
{
    let deps = supervisor::upstream(w, x);
    let nodes = v.nodes_of(wid);
    if supervisor::unblocked(w, nodes, x) {
        assert forall|k: int| #[trigger] leads_to(w, k, x) implies is_done(v, wid, w.edges[k].from) by {
            let y = w.edges[k].from;
            lemma_waits_for(w, x, y);
            let i = choose|i: int| 0 <= i < deps.len() && deps[i] == y;
            assert(supervisor::stands(nodes, deps[i], NodeStatus::Done));
            let j = lemma_row_found(v, wid, y);
        }
    }
    if may_begin(w, v, wid, x) {
        assert forall|i: int| 0 <= i < deps.len() implies supervisor::stands(
            nodes,
            #[trigger] deps[i],
            NodeStatus::Done,
        ) by {
            let y = deps[i];
            lemma_waits_for(w, x, y);
            let k = choose|k: int| #[trigger] leads_to(w, k, x) && w.edges[k].from == y;
            let j = choose|j: int| #[trigger] row_is(v, j, wid, y) && v.nodes[j].status == NodeStatus::Done;
            lemma_found_row(v, wid, y, j);
        }
    }
}

/// What is gathered for a node is what it should be given.
proof fn lemma_gathered(w: WorkflowView, v: StoreView, wid: Seq<char>, initial: JsonView, x: Seq<char>)
    requires
        v.keyed(),
    ensures
        given_rightly(
            w,
            v,
            wid,
            initial,
            x,
            supervisor::recovered_input(w, v.nodes_of(wid), initial, x),
        ),
        (exists|k: int| #[trigger] leads_to(w, k, x)) ==> given_rightly(
            w,
            v,
            wid,
            initial,
            x,
            supervisor::gathered(w, v.nodes_of(wid), x),
        ),
{
    let deps = supervisor::upstream(w, x);
    let nodes = v.nodes_of(wid);
    let g = supervisor::gathered(w, nodes, x);
    lemma_waits_for(w, x, Seq::empty());
    if deps.len() > 0 {
        assert forall|k: int, j: int|
            #![trigger leads_to(w, k, x), row_is(v, j, wid, w.edges[k].from)]
            leads_to(w, k, x) && row_is(v, j, wid, w.edges[k].from) implies {
            ||| kept_as(v.nodes[j].output, g) && (forall|l: int| #[trigger] leads_to(w, l, x) ==> l == k)
            ||| g matches JsonView::Object(m) && m.dom().contains(w.edges[k].from) && kept_as(
                v.nodes[j].output,
                m[w.edges[k].from],
            ) && (exists|l: int| #[trigger] leads_to(w, l, x) && l != k)
        } by {
            let y = w.edges[k].from;
            lemma_waits_for(w, x, y);
            lemma_found_row(v, wid, y, j);
            if deps.len() == 1 {
                assert(deps[0] == y);
                assert forall|l: int| #[trigger] leads_to(w, l, x) implies l == k by {}
            } else {
                let (a, b) = choose|a: int, b: int|
                    #![trigger leads_to(w, a, x), leads_to(w, b, x)]
                    a != b && leads_to(w, a, x) && leads_to(w, b, x);
                assert(leads_to(w, a, x) && leads_to(w, b, x));
            }
        }
        assert forall|k: int, l: int|
            #![trigger leads_to(w, k, x), leads_to(w, l, x)]
            leads_to(w, k, x) && leads_to(w, l, x) && k != l implies {
            &&& g matches JsonView::Object(m)
            &&& forall|y: Seq<char>| #[trigger]
                (g->Object_0).dom().contains(y) ==> exists|i: int| #[trigger]
                    leads_to(w, i, x) && w.edges[i].from == y
        } by {
            assert forall|y: Seq<char>| #[trigger] (g->Object_0).dom().contains(y) implies exists|i: int| #[trigger]
                leads_to(w, i, x) && w.edges[i].from == y by {
                lemma_waits_for(w, x, y);
            }
        }
    }
}

/// A recovery gives every node that it hands out what that node should be given, the
/// payload of the run where no edge leads to it, and hands out a node only where it is
/// pending or was at work and all nodes before it are done.
pub proof fn law_recovered_task(w: WorkflowView, v: StoreView, wid: Seq<char>, initial: JsonView, i: int)
    requires
        v.keyed(),
        v.row(wid) is Some,
        reads_as(v.row(wid)->0.record.initial_payload, initial),
        0 <= i < supervisor::recovered_tasks(w, v, wid).len(),
    ensures
        ({
            let (x, input) = supervisor::recovered_tasks(w, v, wid)[i];
            &&& given_rightly(w, v, wid, initial, x, input)
            &&& may_begin(w, v, wid, x)
            &&& exists|j: int| #[trigger]
                row_is(v, j, wid, x) && (v.nodes[j].status == NodeStatus::Pending || v.nodes[j].status
                    == NodeStatus::Running)
        }),
{
    let nodes = v.nodes_of(wid);
    let stored = supervisor::stored_value(v.row(wid)->0.record.initial_payload);
    assert(stored == initial);
    let (x, input) = supervisor::recovered_tasks(w, v, wid)[i];
    lemma_recovered_inputs(w, nodes, initial, nodes.len(), i);
    supervisor_laws::law_recovery_repeats_nothing(w, nodes, initial, nodes.len(), i);
    lemma_gathered(w, v, wid, initial, x);
    lemma_may_begin(w, v, wid, x);
    let j = choose|j: int|
        0 <= j < nodes.len() && (#[trigger] nodes[j]).node_id == x && (nodes[j].status
            == NodeStatus::Pending || nodes[j].status == NodeStatus::Running);
    run_laws::lemma_only_row(v, wid, j);
    let m = lemma_row_found(v, wid, x);
}

proof fn lemma_recovered_inputs(w: WorkflowView, nodes: Seq<NodeView>, initial: JsonView, n: nat, i: int)
    requires
        n <= nodes.len(),
        0 <= i < supervisor::recovered_upto(w, nodes, initial, n).len(),
    ensures
        ({
            let (x, input) = supervisor::recovered_upto(w, nodes, initial, n)[i];
            input == supervisor::recovered_input(w, nodes, initial, x)
        }),
    decreases n,
{
    let prior = supervisor::recovered_upto(w, nodes, initial, (n - 1) as nat);
    if i < prior.len() {
        lemma_recovered_inputs(w, nodes, initial, (n - 1) as nat, i);
    }
}

/// A recovery hands out every node that is pending or was at work and before which
/// all nodes are done.
pub proof fn law_recovery_is_complete(w: WorkflowView, v: StoreView, wid: Seq<char>, x: Seq<char>, j: int)
    requires
        v.keyed(),
        row_is(v, j, wid, x),
        v.nodes[j].status == NodeStatus::Pending || v.nodes[j].status == NodeStatus::Running,
        may_begin(w, v, wid, x),
    ensures
        exists|i: int|
            0 <= i < supervisor::recovered_tasks(w, v, wid).len() && (
            #[trigger] supervisor::recovered_tasks(w, v, wid)[i]).0 == x,
{
    let nodes = v.nodes_of(wid);
    let initial = supervisor::stored_value(v.row(wid)->0.record.initial_payload);
    lemma_found_row(v, wid, x, j);
    let i = run_laws::lemma_row_of(nodes, x);
    lemma_may_begin(w, v, wid, x);
    supervisor_laws::law_recovery_forgets_nothing(w, nodes, initial, nodes.len(), i);
    let tasks = supervisor::recovered_tasks(w, v, wid);
    let k = choose|k: int|
        0 <= k < tasks.len() && tasks[k] == (x, supervisor::recovered_input(w, nodes, initial, x));
    assert(tasks[k].0 == x);
}

/// A run that is recovered before an entry is done hands the entry the payload that
/// the run was begun with, whatever has happened to the execution in between, where
/// the payload reads back from its text.
pub proof fn law_recovered_entry_gets_the_payload(
    s: SupervisorView,
    id: u128,
    w: WorkflowView,
    payload: JsonView,
    spec_text: Seq<char>,
    names: Seq<Seq<char>>,
    now: Instant,
    later: StoreView,
    i: int,
)
    requires
        !s.store.has(ids::id_text(id)),
        s.store.nodes_of(ids::id_text(id)).len() == 0,
        json::json_parse(json::json_text(payload)) == json::read(payload),
        later.keyed(),
        execution_laws::same_plan(
            supervisor::begun(s, id, w, payload, spec_text, names, now).store,
            later,
            ids::id_text(id),
        ),
        0 <= i < supervisor::recovered_tasks(w, later, ids::id_text(id)).len(),
        forall|k: int| !#[trigger]
            leads_to(w, k, supervisor::recovered_tasks(w, later, ids::id_text(id))[i].0),
    ensures
        supervisor::recovered_tasks(w, later, ids::id_text(id))[i].1 == payload,
{
    let wid = ids::id_text(id);
    law_run_is_entered(s, id, w, payload, spec_text, names, now);
    law_recovered_task(w, later, wid, payload, i);
}

/// A run that begins is entered under its id with its plan and its payload, runs, and
/// is held by its driver until the end of a lease. Its start is told, and each entry
/// is handed the payload.
pub proof fn law_run_is_entered(
    s: SupervisorView,
    id: u128,
    w: WorkflowView,
    payload: JsonView,
    spec_text: Seq<char>,
    names: Seq<Seq<char>>,
    now: Instant,
)
    requires
        !s.store.has(ids::id_text(id)),
        s.store.nodes_of(ids::id_text(id)).len() == 0,
    ensures
        ({
            let run = supervisor::begun(s, id, w, payload, spec_text, names, now);
            let row = run.store.row(ids::id_text(id));
            &&& row is Some
            &&& row->0.record.workflow_id == ids::id_text(id)
            &&& row->0.record.status == ExecutionStatus::Running
            &&& row->0.record.workflow_spec == spec_text
            &&& row->0.record.initial_payload == json::json_text(payload)
            &&& row->0.record.result is None
            &&& row->0.record.error is None
            &&& row->0.record.created_at == now.words()
            &&& row->0.claimed_by == Some(s.driver)
            &&& row->0.lease_expires_at == Some(now.lease_end().words())
            &&& run.store.nodes_of(ids::id_text(id)).len() == names.len()
            &&& forall|i: int|
                0 <= i < names.len() ==> (#[trigger] run.store.nodes_of(ids::id_text(id))[i])
                    == (NodeView {
                    workflow_id: ids::id_text(id),
                    node_id: names[i],
                    status: NodeStatus::Pending,
                    output: None,
                    session_id: None,
                    approval_id: None,
                    kind: None,
                    prompt: None,
                    gate_deadline: None,
                    updated_at: now.words(),
                })
            &&& run.agents == s.agents
            &&& run.driver == s.driver
            &&& run.events == s.events.push(
                EventView::WorkflowStarted { workflow_id: id, entries: w.entries },
            )
            &&& supervisor::entry_tasks(w, payload).len() == w.entries.len()
            &&& forall|i: int|
                0 <= i < w.entries.len() ==> #[trigger] supervisor::entry_tasks(w, payload)[i] == (
                    w.entries[i],
                    payload,
                )
        }),
{
    let wid = ids::id_text(id);
    let t = now.words();
    execution_laws::law_created_reads_back(s.store, wid, spec_text, json::json_text(payload), names, t);
    let made = s.store.created(wid, spec_text, json::json_text(payload), names, t);
    execution_store::lemma_row_with_row(
        made,
        wid,
        wid,
        |r: RowView|
            RowView {
                claimed_by: Some(s.driver),
                lease_expires_at: Some(now.lease_end().words()),
                ..r
            },
    );
}

/// Whether an attempt has failed: by an error, or by an answer that tells one.
pub open spec fn has_failed(reply: Result<EnvelopeView, ErrorView>) -> bool {
    match reply {
        Ok(env) => env.kind == EnvelopeKind::Error,
        Err(_) => true,
    }
}

/// An attempt that has not failed settles its task with its answer. After one that
/// has, be it by an error or by an error answer, the task is tried again while retries
/// are left, after a restart where the node asks for it. Once none is left it goes to
/// the fallback that the registry has, and fails where there is none: with the error
/// as it came, or with the payload of the error answer in the name of the node.
pub proof fn law_failure_policy(
    agents: Map<Seq<char>, AgentNodeView>,
    node: AgentNodeView,
    attempt: nat,
    reply: Result<EnvelopeView, ErrorView>,
)
    ensures
        ({
            let j = supervisor::judged(agents, node, attempt, reply);
            let retries = node.failure.retries;
            let fallback = node.failure.fallback;
            let spare = fallback is Some && agents.dom().contains(fallback->0);
            &&& !has_failed(reply) ==> j == AttemptView::Settled(reply)
            &&& has_failed(reply) && attempt < retries ==> j == (AttemptView::Retry {
                restart: node.failure.restart_on_failure,
            })
            &&& has_failed(reply) && attempt >= retries && spare ==> j == (AttemptView::Fallback {
                node: agents[fallback->0],
            })
            &&& has_failed(reply) && attempt >= retries && !spare ==> j == AttemptView::Settled(
                Err(
                    match reply {
                        Err(e) => e,
                        Ok(env) => ErrorView::AgentFailed {
                            node: node.name,
                            message: json::json_text(env.payload),
                        },
                    },
                ),
            )
        }),
{
}

/// A task that fails every time is tried once and then as often as its node allows
/// retries, whatever the failures are: each failure but the last is followed by
/// another try, and the last by the fallback that the registry has.
pub proof fn law_every_retry_is_made(
    agents: Map<Seq<char>, AgentNodeView>,
    node: AgentNodeView,
    replies: Seq<Result<EnvelopeView, ErrorView>>,
    i: int,
)
    requires
        replies.len() == node.failure.retries + 1,
        0 <= i < replies.len(),
        has_failed(replies[i]),
    ensures
        i < node.failure.retries <==> supervisor::judged(agents, node, i as nat, replies[i]) is Retry,
        i == node.failure.retries && node.failure.fallback is Some && agents.dom().contains(
            node.failure.fallback->0,
        ) ==> supervisor::judged(agents, node, i as nat, replies[i]) == (AttemptView::Fallback {
            node: agents[node.failure.fallback->0],
        }),
{
    law_failure_policy(agents, node, i as nat, replies[i]);
}

/// What is told of an attempt: nothing where it has not failed; otherwise the failure,
/// with the name of the node, the number of the attempt and its words, and after it
/// the restart exactly where one is made.
pub proof fn law_failed_attempts_are_told(
    agents: Map<Seq<char>, AgentNodeView>,
    id: u128,
    node: AgentNodeView,
    attempt: usize,
    reply: Result<EnvelopeView, ErrorView>,
)
    requires
        attempt < usize::MAX,
    ensures
        ({
            let told = supervisor::attempt_events(id, node, attempt, reply);
            let words = match reply {
                Ok(env) => json::json_text(env.payload),
                Err(e) => e.words(),
            };
            let restarts = supervisor::judged(agents, node, attempt as nat, reply)
                == (AttemptView::Retry { restart: true });
            &&& !has_failed(reply) ==> told.len() == 0
            &&& has_failed(reply) ==> told.len() > 0 && told[0] == (EventView::TaskFailed {
                workflow_id: id,
                node: node.name,
                error: words,
                attempt: (attempt + 1) as usize,
            })
            &&& told.len() <= 2
            &&& told.len() == 2 <==> restarts
            &&& told.len() == 2 ==> told[1] == (EventView::AgentRestarted {
                node: node.name,
                reason: words,
            })
        }),
{
}

/// What a failure is told as: a timeout as one at its node, a failure of an agent or of
/// the way to it as one at its node with its message, and any other without a node.
pub open spec fn told_as(e: ErrorView) -> OutcomeView {
    match e {
        ErrorView::AgentTimeout { node } => OutcomeView::Timeout { node },
        ErrorView::AgentFailed { node, message } => OutcomeView::Failed { node, error: message },
        ErrorView::TransportError { node, message } => OutcomeView::Failed { node, error: message },
        ErrorView::RegistryError { .. } => OutcomeView::Failed { node: Seq::empty(), error: e.words() },
        ErrorView::WorkflowError { .. } => OutcomeView::Failed { node: Seq::empty(), error: e.words() },
    }
}

/// The words that stay with an execution after a failure.
pub open spec fn left_words(e: ErrorView) -> Seq<char> {
    match e {
        ErrorView::AgentFailed { message, .. } => message,
        ErrorView::TransportError { message, .. } => message,
        ErrorView::AgentTimeout { .. } => e.words(),
        ErrorView::RegistryError { .. } => e.words(),
        ErrorView::WorkflowError { .. } => e.words(),
    }
}

/// An execution that ends with a failure: how it stands, and that its plan, its
/// payload, its nodes and its driver are as they were.
pub open spec fn failed_with(before: StoreView, after: StoreView, wid: Seq<char>, words: Seq<char>, t: Seq<char>) -> bool {
    &&& after.row(wid) is Some
    &&& after.row(wid)->0.record.status == ExecutionStatus::Failed
    &&& after.row(wid)->0.record.error == Some(words)
    &&& after.row(wid)->0.record.result is None
    &&& after.row(wid)->0.record.updated_at == t
    &&& after.row(wid)->0.record.workflow_spec == before.row(wid)->0.record.workflow_spec
    &&& after.row(wid)->0.record.initial_payload == before.row(wid)->0.record.initial_payload
    &&& after.row(wid)->0.record.created_at == before.row(wid)->0.record.created_at
    &&& after.nodes == before.nodes
}

proof fn lemma_finished_row(
    v: StoreView,
    wid: Seq<char>,
    status: ExecutionStatus,
    result: Option<Seq<char>>,
    error: Option<Seq<char>>,
    t: Seq<char>,
    driver: Seq<char>,
)
    requires
        v.row(wid) is Some,
    ensures
        ({
            let f = v.finished(wid, status, result, error, t);
            let g = f.released(wid, driver);
            let was = v.row(wid)->0;
            &&& f.nodes == v.nodes
            &&& g.nodes == v.nodes
            &&& f.row(wid) is Some
            &&& f.row(wid)->0.record == (execution_store::ExecutionView {
                status,
                result,
                error,
                updated_at: t,
                ..was.record
            })
            &&& f.row(wid)->0.claimed_by == was.claimed_by
            &&& f.row(wid)->0.lease_expires_at == was.lease_expires_at
            &&& g.row(wid) is Some
            &&& g.row(wid)->0.record == f.row(wid)->0.record
            &&& was.claimed_by == Some(driver) ==> g.row(wid)->0.claimed_by is None
            &&& was.claimed_by != Some(driver) ==> g.row(wid)->0.claimed_by == was.claimed_by
        }),
{
    execution_store::lemma_row_with_row(
        v,
        wid,
        wid,
        |r: RowView|
            RowView {
                record: execution_store::ExecutionView {
                    status,
                    result,
                    error,
                    updated_at: t,
                    ..r.record
                },
                ..r
            },
    );
    lemma_released_row(v.finished(wid, status, result, error, t), wid, driver);
}

proof fn lemma_released_row(v: StoreView, wid: Seq<char>, driver: Seq<char>)
    requires
        v.row(wid) is Some,
    ensures
        v.released(wid, driver).nodes == v.nodes,
        v.released(wid, driver).row(wid) is Some,
        v.released(wid, driver).row(wid)->0.record == v.row(wid)->0.record,
        v.row(wid)->0.claimed_by == Some(driver) ==> v.released(wid, driver).row(wid)->0.claimed_by is None,
        v.row(wid)->0.claimed_by != Some(driver) ==> v.released(wid, driver).row(wid) == v.row(wid),
{
    execution_store::lemma_row_with_row(
        v,
        wid,
        wid,
        |r: RowView|
            if r.claimed_by == Some(driver) {
                RowView { claimed_by: None, lease_expires_at: None, ..r }
            } else {
                r
            },
    );
}

/// A task that comes to a failure ends the run. The failure is told with its node
/// where it has one, and stays with the execution; no node changes, none becomes
/// ready, and nothing more is told.
pub proof fn law_failed_task(
    s: SupervisorView,
    ready: Seq<(Seq<char>, JsonView)>,
    w: WorkflowView,
    id: u128,
    node: Seq<char>,
    reply: Result<EnvelopeView, ErrorView>,
    envelope_id: u128,
    elapsed_ms: u64,
    tests: Seq<bool>,
    capabilities: Seq<Seq<char>>,
    now: Instant,
)
    requires
        s.store.row(ids::id_text(id)) is Some,
        has_failed(reply),
    ensures
        ({
            let step = supervisor::after_task(s, ready, w, id, node, reply, envelope_id, elapsed_ms, tests, capabilities, now);
            let e = match reply {
                Err(e) => e,
                Ok(env) => ErrorView::AgentFailed { node, message: json::json_text(env.payload) },
            };
            &&& step.outcome == Some(told_as(e))
            &&& step.ready == ready
            &&& failed_with(s.store, step.supervisor.store, ids::id_text(id), left_words(e), now.words())
            &&& step.supervisor.store.row(ids::id_text(id))->0.claimed_by == s.store.row(ids::id_text(id))->0.claimed_by
            &&& step.supervisor.events == s.events
            &&& step.supervisor.agents == s.agents
            &&& step.supervisor.driver == s.driver
        }),
{
    let e = match reply {
        Err(e) => e,
        Ok(env) => ErrorView::AgentFailed { node, message: json::json_text(env.payload) },
    };
    lemma_finished_row(s.store, ids::id_text(id), ExecutionStatus::Failed, None, Some(left_words(e)), now.words(), s.driver);
}

/// The rows after one of them has changed to `n`: the others are as they were.
pub open spec fn only_changed(before: StoreView, after: StoreView, wid: Seq<char>, x: Seq<char>, n: NodeView) -> bool {
    &&& after.nodes.len() == before.nodes.len()
    &&& forall|j: int|
        0 <= j < before.nodes.len() ==> #[trigger] after.nodes[j] == if before.nodes[j].workflow_id == wid
            && before.nodes[j].node_id == x {
            n
        } else {
            before.nodes[j]
        }
}

/// The row of a node that is done.
pub open spec fn done_row(wid: Seq<char>, x: Seq<char>, output: Seq<char>, t: Seq<char>) -> NodeView {
    NodeView {
        workflow_id: wid,
        node_id: x,
        status: NodeStatus::Done,
        output: Some(output),
        session_id: None,
        approval_id: None,
        kind: None,
        prompt: None,
        gate_deadline: None,
        updated_at: t,
    }
}

/// A task that is answered leaves its node done with the answer as its output, and
/// every other node as it was. The run goes on: to the nodes that were ready come those
/// at the ends of the edges that are followed, where they are pending and all nodes
/// before them are done, each with what it should be given, and no others.
pub proof fn law_answered_task(
    s: SupervisorView,
    ready: Seq<(Seq<char>, JsonView)>,
    w: WorkflowView,
    id: u128,
    node: Seq<char>,
    env: EnvelopeView,
    envelope_id: u128,
    elapsed_ms: u64,
    tests: Seq<bool>,
    capabilities: Seq<Seq<char>>,
    now: Instant,
)
    requires
        s.store.keyed(),
        s.store.row(ids::id_text(id)) is Some,
        env.kind != EnvelopeKind::Suspended,
        env.kind != EnvelopeKind::Error,
    ensures
        ({
            let wid = ids::id_text(id);
            let step = supervisor::after_task(s, ready, w, id, node, Ok(env), envelope_id, elapsed_ms, tests, capabilities, now);
            let after = step.supervisor.store;
            &&& step.outcome is None
            &&& after.executions == s.store.executions
            &&& only_changed(s.store, after, wid, node, done_row(wid, node, json::json_text(env.payload), now.words()))
            &&& step.supervisor.events == s.events.push(
                EventView::TaskCompleted { workflow_id: id, node, envelope_id, elapsed_ms },
            )
            &&& step.supervisor.agents == s.agents
            &&& step.supervisor.driver == s.driver
            &&& follows(w, after, wid, node, tests, capabilities, ready, step.ready)
        }),
{
    let wid = ids::id_text(id);
    let step = supervisor::after_task(s, ready, w, id, node, Ok(env), envelope_id, elapsed_ms, tests, capabilities, now);
    supervisor_laws::law_answers_keep_the_rows_keyed(s, ready, w, id, node, Ok(env), envelope_id, elapsed_ms, tests, capabilities, now);
    lemma_follows(w, step.supervisor.store, wid, node, tests, capabilities, ready);
}

/// Whether an edge out of `node` is followed: it has no condition, or its test is one
/// of those that hold, or a capability was read that it offers.
pub open spec fn is_followed(e: EdgeView, tests: Seq<bool>, capabilities: Seq<Seq<char>>) -> bool {
    match e.when {
        None => true,
        Some(crate::workflow::PredicateView::Test { id }) => id < tests.len() && tests[id as int],
        Some(crate::workflow::PredicateView::Serves { extractor, capabilities: offered }) => extractor
            < capabilities.len() && exists|i: int|
            0 <= i < offered.len() && #[trigger] offered[i] == capabilities[extractor as int],
    }
}

/// Whether the edge `k` leads from `node` to `x` and is followed.
pub open spec fn fires_at(
    w: WorkflowView,
    k: int,
    node: Seq<char>,
    x: Seq<char>,
    tests: Seq<bool>,
    capabilities: Seq<Seq<char>>,
) -> bool {
    &&& 0 <= k < w.edges.len()
    &&& w.edges[k].from == node
    &&& w.edges[k].to == x
    &&& is_followed(w.edges[k], tests, capabilities)
}

/// Whether a node waits for its turn and all nodes before it are done.
pub open spec fn is_due(w: WorkflowView, v: StoreView, wid: Seq<char>, x: Seq<char>) -> bool {
    &&& may_begin(w, v, wid, x)
    &&& exists|j: int| #[trigger] row_is(v, j, wid, x) && v.nodes[j].status == NodeStatus::Pending
}

/// Whether `after` are the nodes that are ready once `node` is done: those that were,
/// and the due ones at the ends of edges that are followed, each with what it should be
/// given.
pub open spec fn follows(
    w: WorkflowView,
    v: StoreView,
    wid: Seq<char>,
    node: Seq<char>,
    tests: Seq<bool>,
    capabilities: Seq<Seq<char>>,
    ready: Seq<(Seq<char>, JsonView)>,
    after: Seq<(Seq<char>, JsonView)>,
) -> bool {
    &&& ready.len() <= after.len()
    &&& forall|i: int| 0 <= i < ready.len() ==> #[trigger] after[i] == ready[i]
    &&& forall|i: int|
        ready.len() <= i < after.len() ==> is_due(w, v, wid, (#[trigger] after[i]).0) && given_rightly(
            w,
            v,
            wid,
            JsonView::Null,
            after[i].0,
            after[i].1,
        ) && exists|k: int| #[trigger] fires_at(w, k, node, after[i].0, tests, capabilities)
    &&& forall|k: int, x: Seq<char>| #[trigger]
        fires_at(w, k, node, x, tests, capabilities) && is_due(w, v, wid, x) ==> exists|i: int|
            ready.len() <= i < after.len() && (#[trigger] after[i]).0 == x
}

proof fn lemma_is_followed(e: EdgeView, tests: Seq<bool>, capabilities: Seq<Seq<char>>)
    ensures
        is_followed(e, tests, capabilities) <==> e.fires(tests, capabilities),
{
    match e.when {
        Some(crate::workflow::PredicateView::Serves { extractor, capabilities: offered }) => {
            if extractor < capabilities.len() && offered.contains(capabilities[extractor as int]) {
                let i = choose|i: int| 0 <= i < offered.len() && offered[i] == capabilities[extractor as int];
                assert(offered[i] == capabilities[extractor as int]);
            }
        },
        _ => {},
    }
}

proof fn lemma_is_due(w: WorkflowView, v: StoreView, wid: Seq<char>, x: Seq<char>)
    requires
        v.keyed(),
    ensures
        is_due(w, v, wid, x) <==> supervisor::ready_input(w, v.nodes_of(wid), x) is Some,
{
    lemma_may_begin(w, v, wid, x);
    if supervisor::stands(v.nodes_of(wid), x, NodeStatus::Pending) {
        let j = lemma_row_found(v, wid, x);
    }
    if exists|j: int| #[trigger] row_is(v, j, wid, x) && v.nodes[j].status == NodeStatus::Pending {
        let j = choose|j: int| #[trigger] row_is(v, j, wid, x) && v.nodes[j].status == NodeStatus::Pending;
        lemma_found_row(v, wid, x, j);
    }
}

proof fn lemma_follows(
    w: WorkflowView,
    v: StoreView,
    wid: Seq<char>,
    node: Seq<char>,
    tests: Seq<bool>,
    capabilities: Seq<Seq<char>>,
    ready: Seq<(Seq<char>, JsonView)>,
)
    requires
        v.keyed(),
    ensures
        follows(
            w,
            v,
            wid,
            node,
            tests,
            capabilities,
            ready,
            ready + supervisor::newly_ready(
                w,
                v.nodes_of(wid),
                w.outgoing(node),
                tests,
                capabilities,
                w.outgoing(node).len(),
            ),
        ),
{
    let nodes = v.nodes_of(wid);
    let edges = w.outgoing(node);
    let out = |e: EdgeView| e.from == node;
    let new = supervisor::newly_ready(w, nodes, edges, tests, capabilities, edges.len());
    let after = ready + new;
    assert forall|i: int| ready.len() <= i < after.len() implies is_due(w, v, wid, (#[trigger] after[i]).0) && given_rightly(
        w,
        v,
        wid,
        JsonView::Null,
        after[i].0,
        after[i].1,
    ) && exists|k: int| #[trigger] fires_at(w, k, node, after[i].0, tests, capabilities) by {
        let k = i - ready.len();
        assert(after[i] == new[k]);
        let x = new[k].0;
        supervisor_laws::law_ready_means_unblocked(w, nodes, edges, tests, capabilities, edges.len(), k);
        lemma_is_due(w, v, wid, x);
        let j = choose|j: int|
            0 <= j < edges.len() && (#[trigger] edges[j]).to == x && edges[j].fires(tests, capabilities);
        w.edges.lemma_filter_pred(out, j);
        w.edges.lemma_filter_contains_rev(out, edges[j]);
        let n = choose|n: int| 0 <= n < w.edges.len() && w.edges[n] == edges[j];
        lemma_is_followed(w.edges[n], tests, capabilities);
        assert(fires_at(w, n, node, x, tests, capabilities));
        assert(leads_to(w, n, x));
        lemma_gathered(w, v, wid, JsonView::Null, x);
    }
    assert forall|k: int, x: Seq<char>| #[trigger]
        fires_at(w, k, node, x, tests, capabilities) && is_due(w, v, wid, x) implies exists|i: int|
        ready.len() <= i < after.len() && (#[trigger] after[i]).0 == x by {
        w.edges.lemma_filter_contains(out, k);
        let j = choose|j: int| 0 <= j < edges.len() && edges[j] == w.edges[k];
        lemma_is_followed(edges[j], tests, capabilities);
        lemma_is_due(w, v, wid, x);
        supervisor_laws::law_no_unblocked_node_is_forgotten(w, nodes, edges, tests, capabilities, edges.len(), j);
        let i = choose|i: int| 0 <= i < new.len() && new[i] == (x, supervisor::gathered(w, nodes, x));
        assert(after[i + ready.len()].0 == x);
    }
}

/// A number of 64 bits taken with a sign.
pub open spec fn as_signed(n: u64) -> int {
    if n < 0x8000_0000_0000_0000 {
        n as int
    } else {
        n - 0x1_0000_0000_0000_0000
    }
}

/// The deadline of a gate: the one that the agent names, brought to UTC where it is a
/// moment; otherwise that of its node, counted from `now`; otherwise none.
pub open spec fn gate_until(
    agents: Map<Seq<char>, AgentNodeView>,
    node: Seq<char>,
    named: Option<Seq<char>>,
    now: Instant,
    deadline: Option<Seq<char>>,
) -> bool {
    let secs = agents[node].gate_deadline_secs;
    match named {
        Some(d) => match clock::rfc3339_parse(d) {
            Some(t) => deadline == Some(clock::rfc3339(t.0, t.1)),
            None => deadline == Some(d),
        },
        None => if agents.dom().contains(node) && secs is Some {
            deadline == Some(clock::rfc3339((now.secs + as_signed(secs->0)) as i64, now.nanos))
        } else {
            deadline is None
        },
    }
}

/// Whether a gate can be given a deadline: its agent names one, or its node has none,
/// or the moment is one that a date can name.
pub open spec fn gate_can_be_dated(
    agents: Map<Seq<char>, AgentNodeView>,
    node: Seq<char>,
    named: Option<Seq<char>>,
    now: Instant,
) -> bool {
    ||| named is Some
    ||| !agents.dom().contains(node)
    ||| agents[node].gate_deadline_secs is None
    ||| clock::FIRST_SECOND <= now.secs + as_signed(agents[node].gate_deadline_secs->0)
        <= clock::LAST_SECOND
}

/// The row of a node that waits for a decision, told from the row before and the
/// question.
pub open spec fn waits(before: NodeView, after: NodeView, p: resume::SuspendView, t: Seq<char>) -> bool {
    &&& after.workflow_id == before.workflow_id
    &&& after.node_id == before.node_id
    &&& after.status == NodeStatus::Suspended
    &&& after.output == before.output
    &&& after.session_id == Some(p.session_id)
    &&& after.approval_id == Some(p.approval_id)
    &&& after.kind == Some(p.kind)
    &&& after.prompt == Some(p.prompt)
    &&& after.updated_at == t
}

/// The rows after a node was parked: the others are as they were.
pub open spec fn only_parked(
    agents: Map<Seq<char>, AgentNodeView>,
    before: StoreView,
    after: StoreView,
    wid: Seq<char>,
    x: Seq<char>,
    p: resume::SuspendView,
    now: Instant,
) -> bool {
    &&& after.nodes.len() == before.nodes.len()
    &&& forall|j: int|
        0 <= j < before.nodes.len() && !(before.nodes[j].workflow_id == wid && before.nodes[j].node_id == x)
            ==> #[trigger] after.nodes[j] == before.nodes[j]
    &&& forall|j: int| #[trigger]
        row_is(before, j, wid, x) ==> waits(before.nodes[j], after.nodes[j], p, now.words()) && gate_until(
            agents,
            x,
            p.gate_deadline,
            now,
            after.nodes[j].gate_deadline,
        )
}

/// A task whose agent asks for a decision parks its node with what ties it to its
/// agent and with its deadline, and no node becomes ready; the run goes on. A question
/// that cannot be read, or whose deadline is no date, fails the run.
pub proof fn law_question(
    s: SupervisorView,
    ready: Seq<(Seq<char>, JsonView)>,
    w: WorkflowView,
    id: u128,
    node: Seq<char>,
    env: EnvelopeView,
    envelope_id: u128,
    elapsed_ms: u64,
    tests: Seq<bool>,
    capabilities: Seq<Seq<char>>,
    now: Instant,
)
    requires
        s.store.row(ids::id_text(id)) is Some,
        env.kind == EnvelopeKind::Suspended,
    ensures
        ({
            let wid = ids::id_text(id);
            let step = supervisor::after_task(s, ready, w, id, node, Ok(env), envelope_id, elapsed_ms, tests, capabilities, now);
            let after = step.supervisor.store;
            let completed = EventView::TaskCompleted { workflow_id: id, node, envelope_id, elapsed_ms };
            &&& step.ready == ready
            &&& step.supervisor.agents == s.agents
            &&& step.supervisor.driver == s.driver
            &&& match resume::suspend_of(env.payload) {
                Ok(p) => {
                    &&& gate_can_be_dated(s.agents, node, p.gate_deadline, now) ==> {
                        &&& step.outcome is None
                        &&& after.executions == s.store.executions
                        &&& only_parked(s.agents, s.store, after, wid, node, p, now)
                        &&& step.supervisor.events == s.events.push(completed).push(
                            EventView::NodeSuspended {
                                workflow_id: id,
                                node,
                                session_id: p.session_id,
                                approval_id: p.approval_id,
                                kind: p.kind,
                                prompt: p.prompt,
                            },
                        )
                    }
                    &&& !gate_can_be_dated(s.agents, node, p.gate_deadline, now) ==> {
                        let words = "workflow error: "@ + ("gate deadline of '"@ + node
                            + "' is not a date"@);
                        &&& step.outcome == Some(OutcomeView::Failed { node: Seq::empty(), error: words })
                        &&& failed_with(s.store, after, wid, words, now.words())
                        &&& step.supervisor.events == s.events.push(completed)
                    }
                },
                Err(complaint) => {
                    let words = "workflow error: "@ + ("malformed Suspended payload from '"@ + node + "': "@
                        + complaint);
                    &&& step.outcome == Some(OutcomeView::Failed { node: Seq::empty(), error: words })
                    &&& failed_with(s.store, after, wid, words, now.words())
                    &&& step.supervisor.events == s.events.push(completed)
                },
            }
        }),
{
    let wid = ids::id_text(id);
    let t = now.words();
    match resume::suspend_of(env.payload) {
        Ok(p) => {
            let e = supervisor::no_date(node);
            lemma_finished_row(s.store, wid, ExecutionStatus::Failed, None, Some(supervisor::failure_words(e)), t, s.driver);
        },
        Err(complaint) => {
            let e = supervisor::malformed(node, complaint);
            lemma_finished_row(s.store, wid, ExecutionStatus::Failed, None, Some(supervisor::failure_words(e)), t, s.driver);
        },
    }
}

/// A decision can be delivered to a node exactly where the execution is there, the node
/// waits for a decision, it is known what ties it to its agent, and the agent is
/// registered. The reasons why it cannot come in this order, and what ties the node to
/// its agent is what was kept when it was parked.
pub proof fn law_who_can_be_decided(s: SupervisorView, wid: Seq<char>, node: Seq<char>, j: int)
    requires
        s.store.keyed(),
    ensures
        ({
            let r = supervisor::resumable(s, wid, node);
            let n = s.store.nodes[j];
            let there = s.store.row(wid) is Some && row_is(s.store, j, wid, node);
            let tied = n.session_id is Some && n.approval_id is Some;
            &&& s.store.row(wid) is None || (forall|i: int| !#[trigger] row_is(s.store, i, wid, node)) ==> r == Err::<
                (Seq<char>, Seq<char>),
                Seq<char>,
            >("unknown node"@)
            &&& there && n.status != NodeStatus::Suspended ==> r == Err::<
                (Seq<char>, Seq<char>),
                Seq<char>,
            >("node is not suspended"@)
            &&& there && n.status == NodeStatus::Suspended && !tied ==> r == Err::<
                (Seq<char>, Seq<char>),
                Seq<char>,
            >("missing resume correlation"@)
            &&& there && n.status == NodeStatus::Suspended && tied && !s.agents.dom().contains(node) ==> r == Err::<
                (Seq<char>, Seq<char>),
                Seq<char>,
            >("node not in registry"@)
            &&& there && n.status == NodeStatus::Suspended && tied && s.agents.dom().contains(node) ==> r == Ok::<
                (Seq<char>, Seq<char>),
                Seq<char>,
            >((n.session_id->0, n.approval_id->0))
        }),
{
    if row_is(s.store, j, wid, node) {
        lemma_found_row(s.store, wid, node, j);
    }
    if supervisor::node_in(s.store.nodes_of(wid), node) is Some {
        let i = lemma_row_found(s.store, wid, node);
    }
}

/// An agent that answers a decision leaves its node done with the answer as its output,
/// and the run goes on with the nodes behind it. Where it fails, or asks what cannot be
/// read, the outcome names the node and the words. Where it asks again, the node is
/// parked anew and the execution is suspended. Unless the run goes on, the driver gives
/// the execution up.
pub proof fn law_decided(
    s: SupervisorView,
    w: WorkflowView,
    id: u128,
    node: Seq<char>,
    reply: Result<EnvelopeView, ErrorView>,
    tests: Seq<bool>,
    capabilities: Seq<Seq<char>>,
    now: Instant,
)
    requires
        s.store.keyed(),
        s.store.row(ids::id_text(id)) is Some,
        s.store.row(ids::id_text(id))->0.claimed_by == Some(s.driver),
    ensures
        ({
            let wid = ids::id_text(id);
            let step = supervisor::after_resume(s, w, id, node, reply, tests, capabilities, now);
            let after = step.supervisor.store;
            let row = after.row(wid)->0;
            let asks = reply is Ok && reply->Ok_0.kind == EnvelopeKind::Suspended;
            let p = resume::suspend_of(reply->Ok_0.payload);
            &&& step.supervisor.agents == s.agents
            &&& step.supervisor.driver == s.driver
            &&& after.row(wid) is Some
            &&& row.record.workflow_spec == s.store.row(wid)->0.record.workflow_spec
            &&& row.record.initial_payload == s.store.row(wid)->0.record.initial_payload
            &&& step.outcome is Some ==> step.ready.len() == 0 && row.claimed_by is None
            &&& has_failed(reply) ==> {
                let words = match reply {
                    Err(e) => e.words(),
                    Ok(env) => json::json_text(env.payload),
                };
                &&& step.outcome == Some(OutcomeView::Failed { node, error: words })
                &&& failed_with(s.store, after, wid, words, now.words())
                &&& step.supervisor.events == s.events
            }
            &&& asks && p is Err ==> {
                &&& step.outcome == Some(OutcomeView::Failed { node, error: p->Err_0 })
                &&& after.nodes == s.store.nodes
                &&& row.record == s.store.row(wid)->0.record
            }
            &&& asks && p is Ok && gate_can_be_dated(s.agents, node, p->Ok_0.gate_deadline, now) ==> {
                &&& step.outcome == Some(OutcomeView::Suspended { workflow_id: id })
                &&& only_parked(s.agents, s.store, after, wid, node, p->Ok_0, now)
                &&& row.record.status == ExecutionStatus::Suspended
                &&& row.record.error is None
                &&& step.supervisor.events == s.events.push(
                    EventView::NodeSuspended {
                        workflow_id: id,
                        node,
                        session_id: p->Ok_0.session_id,
                        approval_id: p->Ok_0.approval_id,
                        kind: p->Ok_0.kind,
                        prompt: p->Ok_0.prompt,
                    },
                )
            }
            &&& asks && p is Ok && !gate_can_be_dated(s.agents, node, p->Ok_0.gate_deadline, now) ==> {
                let words = "workflow error: "@ + ("gate deadline of '"@ + node + "' is not a date"@);
                &&& step.outcome == Some(OutcomeView::Failed { node, error: words })
                &&& failed_with(s.store, after, wid, words, now.words())
                &&& step.supervisor.events == s.events
            }
            &&& !has_failed(reply) && !asks ==> {
                &&& step.outcome is None
                &&& only_changed(
                    s.store,
                    after,
                    wid,
                    node,
                    done_row(wid, node, json::json_text(reply->Ok_0.payload), now.words()),
                )
                &&& row.record.status == ExecutionStatus::Running
                &&& row.record.error is None
                &&& row.record.result is None
                &&& row.claimed_by == Some(s.driver)
                &&& step.supervisor.events == s.events
                &&& follows(w, after, wid, node, tests, capabilities, Seq::empty(), step.ready)
            }
        }),
{
    let wid = ids::id_text(id);
    let t = now.words();
    let step = supervisor::after_resume(s, w, id, node, reply, tests, capabilities, now);
    supervisor_laws::law_answers_keep_the_rows_keyed(s, Seq::empty(), w, id, node, reply, 0, 0, tests, capabilities, now);
    lemma_released_row(s.store, wid, s.driver);
    match reply {
        Err(e) => {
            lemma_finished_row(s.store, wid, ExecutionStatus::Failed, None, Some(e.words()), t, s.driver);
        },
        Ok(env) => {
            let text = json::json_text(env.payload);
            lemma_finished_row(s.store, wid, ExecutionStatus::Failed, None, Some(text), t, s.driver);
            lemma_finished_row(s.store, wid, ExecutionStatus::Failed, None, Some(supervisor::no_date(node).words()), t, s.driver);
            let done = s.store.completed(wid, node, text, t);
            lemma_finished_row(done, wid, ExecutionStatus::Running, None, None, t, s.driver);
            if let Ok(p) = resume::suspend_of(env.payload) {
                let parked = s.parked(id, node, p, now).store;
                lemma_finished_row(parked, wid, ExecutionStatus::Suspended, None, None, t, s.driver);
            }
            if env.kind != EnvelopeKind::Suspended && env.kind != EnvelopeKind::Error {
                let new = supervisor::newly_ready(
                    w,
                    step.supervisor.store.nodes_of(wid),
                    w.outgoing(node),
                    tests,
                    capabilities,
                    w.outgoing(node).len(),
                );
                lemma_follows(w, step.supervisor.store, wid, node, tests, capabilities, Seq::empty());
                assert(Seq::<(Seq<char>, JsonView)>::empty() + new =~= new);
            }
        },
    }
}

/// The text of a moment is that of its second and its nanoseconds, and a lease that
/// begins at a moment ends five minutes after it.
pub proof fn law_lease_lasts_five_minutes(now: Instant)
    requires
        now.usable(),
    ensures
        now.words() == clock::rfc3339(now.secs, now.nanos),
        now.lease_end().secs == now.secs + 300,
        now.lease_end().nanos == now.nanos,
{
}

/// A run that comes to rest is suspended where one of its nodes waits for a decision.
/// Otherwise it has succeeded, and its result holds, under the name of each node that
/// has an output and that no edge leaves, that output, and nothing else. The outcome
/// stays with the execution, and no node changes.
pub proof fn law_end_of_a_run(s: SupervisorView, w: WorkflowView, id: u128, t: Seq<char>)
    requires
        s.store.keyed(),
        s.store.row(ids::id_text(id)) is Some,
    ensures
        ({
            let wid = ids::id_text(id);
            let (after, outcome) = supervisor::finalized(s, w, id, t);
            let record = after.store.row(wid)->0.record;
            let parked = exists|j: int|
                0 <= j < s.store.nodes.len() && (#[trigger] s.store.nodes[j]).workflow_id == wid
                    && s.store.nodes[j].status == NodeStatus::Suspended;
            &&& after.store.nodes == s.store.nodes
            &&& after.store.row(wid) is Some
            &&& after.store.row(wid)->0.claimed_by == s.store.row(wid)->0.claimed_by
            &&& record.workflow_spec == s.store.row(wid)->0.record.workflow_spec
            &&& record.initial_payload == s.store.row(wid)->0.record.initial_payload
            &&& record.error is None
            &&& record.updated_at == t
            &&& after.events == s.events
            &&& if parked {
                &&& outcome == Ok::<OutcomeView, ErrorView>(OutcomeView::Suspended { workflow_id: id })
                &&& record.status == ExecutionStatus::Suspended
                &&& record.result is None
            } else {
                &&& outcome matches Ok(OutcomeView::Success(JsonView::Object(m))) && record.result == Some(
                    json::json_text(JsonView::Object(m)),
                ) && ends_in(w, s.store, wid, m)
                &&& record.status == ExecutionStatus::Succeeded
            }
        }),
{
    let wid = ids::id_text(id);
    let nodes = s.store.nodes_of(wid);
    let q = |n: NodeView| n.workflow_id == wid;
    let m = supervisor::terminal_outputs(w, nodes);
    lemma_finished_row(s.store, wid, ExecutionStatus::Suspended, None, None, t, s.driver);
    lemma_finished_row(s.store, wid, ExecutionStatus::Succeeded, Some(json::json_text(JsonView::Object(m))), None, t, s.driver);
    if supervisor::some_suspended(nodes) {
        let i = choose|i: int| 0 <= i < nodes.len() && (#[trigger] nodes[i]).status == NodeStatus::Suspended;
        s.store.nodes.lemma_filter_pred(q, i);
        s.store.nodes.lemma_filter_contains_rev(q, nodes[i]);
        let j = choose|j: int| 0 <= j < s.store.nodes.len() && s.store.nodes[j] == nodes[i];
        assert(s.store.nodes[j].workflow_id == wid);
    }
    if exists|j: int|
        0 <= j < s.store.nodes.len() && (#[trigger] s.store.nodes[j]).workflow_id == wid
            && s.store.nodes[j].status == NodeStatus::Suspended {
        let j = choose|j: int|
            0 <= j < s.store.nodes.len() && (#[trigger] s.store.nodes[j]).workflow_id == wid
                && s.store.nodes[j].status == NodeStatus::Suspended;
        s.store.nodes.lemma_filter_contains(q, j);
        let i = choose|i: int| 0 <= i < nodes.len() && nodes[i] == s.store.nodes[j];
        assert(nodes[i].status == NodeStatus::Suspended);
    } else {
        supervisor_laws::law_result_of_a_run(s, w, id, t, Seq::empty());
        assert forall|x: Seq<char>| #[trigger] m.dom().contains(x) implies (exists|j: int| #[trigger]
            row_is(s.store, j, wid, x) && s.store.nodes[j].output is Some) && (forall|k: int|
            0 <= k < w.edges.len() ==> (#[trigger] w.edges[k]).from != x) by {
            supervisor_laws::law_result_of_a_run(s, w, id, t, x);
            let j = lemma_row_found(s.store, wid, x);
        }
        assert forall|j: int, x: Seq<char>| #[trigger]
            row_is(s.store, j, wid, x) && s.store.nodes[j].output is Some && (forall|k: int|
                0 <= k < w.edges.len() ==> (#[trigger] w.edges[k]).from != x) implies m.dom().contains(x) && kept_as(
            s.store.nodes[j].output,
            m[x],
        ) by {
            supervisor_laws::law_result_of_a_run(s, w, id, t, x);
            lemma_found_row(s.store, wid, x, j);
        }
    }
}

/// Whether `m` holds the outputs of the nodes that no edge leaves, each under the name
/// of its node, and nothing else.
pub open spec fn ends_in(w: WorkflowView, v: StoreView, wid: Seq<char>, m: Map<Seq<char>, JsonView>) -> bool {
    &&& forall|x: Seq<char>| #[trigger]
        m.dom().contains(x) ==> (exists|j: int| #[trigger]
            row_is(v, j, wid, x) && v.nodes[j].output is Some) && (forall|k: int|
            0 <= k < w.edges.len() ==> (#[trigger] w.edges[k]).from != x)
    &&& forall|j: int, x: Seq<char>| #[trigger]
        row_is(v, j, wid, x) && v.nodes[j].output is Some && (forall|k: int|
            0 <= k < w.edges.len() ==> (#[trigger] w.edges[k]).from != x) ==> m.dom().contains(x) && kept_as(
            v.nodes[j].output,
            m[x],
        )
}

/// What a run that has ended is told as: its outcome where it has one, and otherwise a
/// failure without a node, in the words of the error. Neither success nor suspension
/// is told of a run that came to an error.
pub proof fn law_told_outcome(r: Result<OutcomeView, ErrorView>)
    ensures
        r matches Ok(o) ==> supervisor::settled_outcome(r) == o,
        r matches Err(e) ==> supervisor::settled_outcome(r) == (OutcomeView::Failed {
            node: Seq::empty(),
            error: e.words(),
        }),
{
}

} // verus!

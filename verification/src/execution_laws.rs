//! What holds of executions over several operations.

use vstd::prelude::*;
use crate::clock::Instant;
use crate::execution_store;
use crate::execution_store::{
    ExecutionStatus, NodeStatus, NodeView, RowView, StoreView,
};
use crate::supervisor;
use crate::text;

verus! {

proof fn lemma_filter_map<A>(s: Seq<A>, p: spec_fn(A) -> bool, g: spec_fn(A) -> A)
    requires
        forall|a: A| p(#[trigger] g(a)) == p(a),
    ensures
        s.map_values(g).filter(p) == s.filter(p).map_values(g),
    decreases s.len(),
{
    reveal(Seq::filter);
    if s.len() > 0 {
        lemma_filter_map(s.drop_last(), p, g);
        assert(s.map_values(g).drop_last() =~= s.drop_last().map_values(g));
        assert(s.map_values(g).last() == g(s.last()));
        assert(s.map_values(g).filter(p) =~= s.filter(p).map_values(g));
    } else {
        assert(s.map_values(g).filter(p) =~= s.filter(p).map_values(g));
    }
}

proof fn lemma_first_map<A>(s: Seq<A>, p: spec_fn(A) -> bool, g: spec_fn(A) -> A)
    requires
        forall|a: A| p(#[trigger] g(a)) == p(a),
    ensures
        execution_store::first(s.map_values(g), p) == match execution_store::first(s, p) {
            Some(a) => Some(g(a)),
            None => None,
        },
    decreases s.len(),
{
    if s.len() > 0 {
        lemma_first_map(s.drop_first(), p, g);
        assert(s.map_values(g).drop_first() =~= s.drop_first().map_values(g));
        assert(s.map_values(g)[0] == g(s[0]));
    }
}

/// A change of the node `id` of the execution `w` as a change of any node.
spec fn only(w: Seq<char>, id: Seq<char>, f: spec_fn(NodeView) -> NodeView) -> spec_fn(NodeView) -> NodeView {
    |n: NodeView|
        if n.is(w, id) {
            f(n)
        } else {
            n
        }
}

/// A change of one node is seen where the nodes of an execution are read, and
/// nowhere else.
pub proof fn lemma_nodes_with_node(
    v: StoreView,
    w: Seq<char>,
    id: Seq<char>,
    f: spec_fn(NodeView) -> NodeView,
    other: Seq<char>,
    x: Seq<char>,
)
    requires
        forall|n: NodeView|
            (#[trigger] f(n)).workflow_id == n.workflow_id && f(n).node_id == n.node_id,
    ensures
        v.with_node(w, id, f).row(other) == v.row(other),
        other != w ==> v.with_node(w, id, f).nodes_of(other) == v.nodes_of(other),
        supervisor::node_in(v.with_node(w, id, f).nodes_of(w), x) == match supervisor::node_in(v.nodes_of(w), x) {
            Some(n) => Some(
                if x == id {
                    f(n)
                } else {
                    n
                },
            ),
            None => None,
        },
{
    let g = only(w, id, f);
    let u = v.with_node(w, id, f);
    assert(u.nodes =~= v.nodes.map_values(g));
    let p = |n: NodeView| n.workflow_id == other;
    lemma_filter_map(v.nodes, p, g);
    if other != w {
        let t = v.nodes.filter(p);
        assert forall|i: int| 0 <= i < t.len() implies #[trigger] t[i].workflow_id == other by {
            v.nodes.lemma_filter_pred(p, i);
        }
        assert(t.map_values(g) =~= t);
    }
    let q = |n: NodeView| n.workflow_id == w;
    lemma_filter_map(v.nodes, q, g);
    let s = v.nodes.filter(q);
    let r = |n: NodeView| n.node_id == x;
    lemma_first_map(s, r, g);
    lemma_first_is(s, r);
    if let Some(n) = execution_store::first(s, r) {
        assert forall|i: int| 0 <= i < s.len() implies #[trigger] s[i].workflow_id == w by {
            v.nodes.lemma_filter_pred(q, i);
        }
        assert(n.workflow_id == w && n.node_id == x);
    }
}

/// The first match is a member and matches; without a match there is none.
pub proof fn lemma_first_is<A>(s: Seq<A>, p: spec_fn(A) -> bool)
    ensures
        match execution_store::first(s, p) {
            Some(a) => s.contains(a) && p(a),
            None => forall|i: int| 0 <= i < s.len() ==> !p(#[trigger] s[i]),
        },
    decreases s.len(),
{
    if s.len() > 0 && !p(s[0]) {
        let t = s.drop_first();
        lemma_first_is(t, p);
        match execution_store::first(t, p) {
            Some(a) => {
                let i = choose|i: int| 0 <= i < t.len() && t[i] == a;
                assert(s[i + 1] == a);
            },
            None => {
                assert forall|i: int| 0 <= i < s.len() implies !p(#[trigger] s[i]) by {
                    if i > 0 {
                        assert(t[i - 1] == s[i]);
                    }
                }
            },
        }
    } else if s.len() > 0 {
        assert(s[0] == s[0]);
    }
}

/// While a driver holds an execution, no other driver may take it: not before the
/// hold has ended. The driver itself may, at any time.
pub proof fn law_hold_keeps_others_out(
    v: StoreView,
    w: Seq<char>,
    driver: Seq<char>,
    other: Seq<char>,
    until: Seq<char>,
    now: Seq<char>,
)
    requires
        v.row(w) is Some,
        other != driver,
    ensures
        v.claimed(w, driver, until).claimable(w, driver, now),
        v.claimed(w, driver, until).claimable(w, other, now) <==> text::lex_lt(until, now),
{
    execution_store::lemma_row_with_row(
        v,
        w,
        w,
        |r: RowView| RowView { claimed_by: Some(driver), lease_expires_at: Some(until), ..r },
    );
}

/// An execution that its driver has given up is free for every driver, and the
/// rest of its row is as it was.
pub proof fn law_released_is_free(
    v: StoreView,
    w: Seq<char>,
    driver: Seq<char>,
    until: Seq<char>,
    other: Seq<char>,
    now: Seq<char>,
)
    requires
        v.row(w) is Some,
    ensures
        v.claimed(w, driver, until).released(w, driver).claimable(w, other, now),
        v.claimed(w, driver, until).released(w, driver).row(w)->0.record == v.row(w)->0.record,
{
    let held = v.claimed(w, driver, until);
    execution_store::lemma_row_with_row(
        v,
        w,
        w,
        |r: RowView| RowView { claimed_by: Some(driver), lease_expires_at: Some(until), ..r },
    );
    execution_store::lemma_row_with_row(
        held,
        w,
        w,
        |r: RowView|
            if r.claimed_by == Some(driver) {
                RowView { claimed_by: None, lease_expires_at: None, ..r }
            } else {
                r
            },
    );
}

/// A driver that does not hold an execution can neither give it up nor put off
/// the end of the hold.
pub proof fn law_only_the_holder_disposes(
    v: StoreView,
    w: Seq<char>,
    driver: Seq<char>,
    other: Seq<char>,
    until: Seq<char>,
    later: Seq<char>,
)
    requires
        other != driver,
    ensures
        v.claimed(w, driver, until).released(w, other) == v.claimed(w, driver, until),
        v.claimed(w, driver, until).renewed(w, other, later) == v.claimed(w, driver, until),
{
    let held = v.claimed(w, driver, until);
    assert(held.released(w, other).executions =~= held.executions);
    assert(held.renewed(w, other, later).executions =~= held.executions);
}

/// Putting off the end of its hold gives a driver the hold until then.
pub proof fn law_renewal_extends_the_hold(
    v: StoreView,
    w: Seq<char>,
    driver: Seq<char>,
    until: Seq<char>,
    later: Seq<char>,
)
    ensures
        v.claimed(w, driver, until).renewed(w, driver, later) == v.claimed(w, driver, later),
{
    assert(v.claimed(w, driver, until).renewed(w, driver, later).executions =~= v.claimed(
        w,
        driver,
        later,
    ).executions);
}

/// No operation on one execution changes the row or the nodes of another.
pub proof fn law_executions_are_apart(
    v: StoreView,
    w: Seq<char>,
    other: Seq<char>,
    id: Seq<char>,
    a: Seq<char>,
    b: Seq<char>,
    c: Seq<char>,
    d: Seq<char>,
    deadline: Option<Seq<char>>,
    status: ExecutionStatus,
    result: Option<Seq<char>>,
    error: Option<Seq<char>>,
    now: Seq<char>,
)
    requires
        other != w,
    ensures
        v.started(w, id, now).row(other) == v.row(other),
        v.started(w, id, now).nodes_of(other) == v.nodes_of(other),
        v.completed(w, id, a, now).row(other) == v.row(other),
        v.completed(w, id, a, now).nodes_of(other) == v.nodes_of(other),
        v.parked(w, id, a, b, c, d, deadline, now).row(other) == v.row(other),
        v.parked(w, id, a, b, c, d, deadline, now).nodes_of(other) == v.nodes_of(other),
        v.finished(w, status, result, error, now).row(other) == v.row(other),
        v.finished(w, status, result, error, now).nodes_of(other) == v.nodes_of(other),
        v.claimed(w, a, b).row(other) == v.row(other),
        v.claimed(w, a, b).nodes_of(other) == v.nodes_of(other),
        v.renewed(w, a, b).row(other) == v.row(other),
        v.renewed(w, a, b).nodes_of(other) == v.nodes_of(other),
        v.released(w, a).row(other) == v.row(other),
        v.released(w, a).nodes_of(other) == v.nodes_of(other),
{
    lemma_nodes_with_node(v, w, id, |n: NodeView| n.started(now), other, id);
    lemma_nodes_with_node(v, w, id, |n: NodeView| n.completed(a, now), other, id);
    lemma_nodes_with_node(v, w, id, |n: NodeView| n.parked(a, b, c, d, deadline, now), other, id);
    execution_store::lemma_row_with_row(
        v,
        w,
        other,
        |r: RowView|
            RowView {
                record: execution_store::ExecutionView {
                    status,
                    result,
                    error,
                    updated_at: now,
                    ..r.record
                },
                ..r
            },
    );
    execution_store::lemma_row_with_row(
        v,
        w,
        other,
        |r: RowView| RowView { claimed_by: Some(a), lease_expires_at: Some(b), ..r },
    );
    execution_store::lemma_row_with_row(
        v,
        w,
        other,
        |r: RowView|
            if r.claimed_by == Some(a) {
                RowView { lease_expires_at: Some(b), ..r }
            } else {
                r
            },
    );
    execution_store::lemma_row_with_row(
        v,
        w,
        other,
        |r: RowView|
            if r.claimed_by == Some(a) {
                RowView { claimed_by: None, lease_expires_at: None, ..r }
            } else {
                r
            },
    );
}

/// What is written of a node is read back of that node, and the other nodes of the
/// execution are as they were. Completing a node also clears the ids that tied it
/// to a decision, and its deadline.
pub proof fn law_nodes_read_back(
    v: StoreView,
    w: Seq<char>,
    id: Seq<char>,
    x: Seq<char>,
    a: Seq<char>,
    b: Seq<char>,
    c: Seq<char>,
    d: Seq<char>,
    deadline: Option<Seq<char>>,
    now: Seq<char>,
)
    requires
        supervisor::node_in(v.nodes_of(w), id) is Some,
        x != id,
    ensures
        supervisor::node_in(v.started(w, id, now).nodes_of(w), id)->0.status == NodeStatus::Running,
        supervisor::node_in(v.started(w, id, now).nodes_of(w), x) == supervisor::node_in(
            v.nodes_of(w),
            x,
        ),
        supervisor::node_in(v.completed(w, id, a, now).nodes_of(w), id) == Some(
            NodeView {
                status: NodeStatus::Done,
                output: Some(a),
                ..NodeView::pending(w, id, now)
            },
        ),
        supervisor::node_in(v.completed(w, id, a, now).nodes_of(w), x) == supervisor::node_in(
            v.nodes_of(w),
            x,
        ),
        ({
            let n = supervisor::node_in(v.parked(w, id, a, b, c, d, deadline, now).nodes_of(w), id)->0;
            &&& n.status == NodeStatus::Suspended
            &&& n.session_id == Some(a)
            &&& n.approval_id == Some(b)
            &&& n.kind == Some(c)
            &&& n.prompt == Some(d)
            &&& n.gate_deadline == deadline
        }),
        supervisor::node_in(v.parked(w, id, a, b, c, d, deadline, now).nodes_of(w), x)
            == supervisor::node_in(v.nodes_of(w), x),
{
    let q = |n: NodeView| n.workflow_id == w;
    let s = v.nodes.filter(q);
    lemma_first_is(s, |n: NodeView| n.node_id == id);
    assert forall|i: int| 0 <= i < s.len() implies #[trigger] s[i].workflow_id == w by {
        v.nodes.lemma_filter_pred(q, i);
    }
    lemma_nodes_with_node(v, w, id, |n: NodeView| n.started(now), w, id);
    lemma_nodes_with_node(v, w, id, |n: NodeView| n.started(now), w, x);
    lemma_nodes_with_node(v, w, id, |n: NodeView| n.completed(a, now), w, id);
    lemma_nodes_with_node(v, w, id, |n: NodeView| n.completed(a, now), w, x);
    lemma_nodes_with_node(v, w, id, |n: NodeView| n.parked(a, b, c, d, deadline, now), w, id);
    lemma_nodes_with_node(v, w, id, |n: NodeView| n.parked(a, b, c, d, deadline, now), w, x);
}

/// A new execution is read back as it was entered: running, free, and with every
/// node pending.
pub proof fn law_created_reads_back(
    v: StoreView,
    w: Seq<char>,
    spec_text: Seq<char>,
    payload: Seq<char>,
    ids: Seq<Seq<char>>,
    now: Seq<char>,
)
    requires
        !v.has(w),
        v.nodes_of(w).len() == 0,
    ensures
        v.created(w, spec_text, payload, ids, now).row(w) == Some(
            RowView {
                record: execution_store::ExecutionView {
                    workflow_id: w,
                    status: ExecutionStatus::Running,
                    workflow_spec: spec_text,
                    initial_payload: payload,
                    result: None,
                    error: None,
                    created_at: now,
                    updated_at: now,
                },
                claimed_by: None,
                lease_expires_at: None,
            },
        ),
        v.created(w, spec_text, payload, ids, now).nodes_of(w) == Seq::new(
            ids.len(),
            |i: int| NodeView::pending(w, ids[i], now),
        ),
{
    let c = v.created(w, spec_text, payload, ids, now);
    let p = |r: RowView| r.record.workflow_id == w;
    assert forall|i: int| 0 <= i < v.executions.len() implies !p(#[trigger] c.executions[i]) by {
        assert(c.executions[i] == v.executions[i]);
    }
    execution_store::lemma_first_at(c.executions, p, v.executions.len() as int);
    let q = |n: NodeView| n.workflow_id == w;
    let fresh = Seq::new(ids.len(), |i: int| NodeView::pending(w, ids[i], now));
    Seq::filter_distributes_over_add(v.nodes, fresh, q);
    lemma_all_kept(fresh, q);
    assert(c.nodes_of(w) =~= fresh);
}

/// A filter that lets every member through keeps the sequence.
pub proof fn lemma_all_kept<A>(s: Seq<A>, p: spec_fn(A) -> bool)
    requires
        forall|i: int| 0 <= i < s.len() ==> p(#[trigger] s[i]),
    ensures
        s.filter(p) == s,
    decreases s.len(),
{
    reveal(Seq::filter);
    if s.len() > 0 {
        assert forall|i: int| 0 <= i < s.drop_last().len() implies p(#[trigger] s.drop_last()[i]) by {
            assert(s.drop_last()[i] == s[i]);
        }
        lemma_all_kept(s.drop_last(), p);
        assert(p(s[s.len() - 1]));
        assert(s.drop_last().push(s.last()) =~= s);
    } else {
        assert(s.filter(p) =~= s);
    }
}

/// After the gates that are overdue have expired none is overdue, and expiring
/// them again changes nothing. An execution without an overdue gate is not
/// touched, and a node that is done or has no deadline is never overdue.
pub proof fn law_gates_expire_once(v: StoreView, now: Seq<char>, w: Seq<char>, n: NodeView, output: Seq<char>, t: Seq<char>)
    ensures
        !v.expired(now).has_overdue(w, now),
        v.expired(now).overdue_pairs(now).len() == 0,
        v.expired(now).expired(now) == v.expired(now),
        !v.has_overdue(w, now) ==> v.expired(now).nodes_of(w) == v.nodes_of(w),
        !v.has_overdue(w, now) ==> v.expired(now).row(w) == v.row(w),
        !n.completed(output, t).overdue(now),
        n.gate_deadline is None ==> !n.overdue(now),
{
    let e = v.expired(now);
    assert forall|i: int| 0 <= i < e.nodes.len() implies !(#[trigger] e.nodes[i]).overdue(now) by {
        assert(v.nodes[i].overdue(now) || !v.nodes[i].overdue(now));
    }
    assert forall|x: Seq<char>| !#[trigger] e.has_overdue(x, now) by {}
    let late = |n: NodeView| n.overdue(now);
    if e.nodes.filter(late).len() > 0 {
        e.nodes.lemma_filter_pred(late, 0);
        let m = e.nodes.filter(late)[0];
        e.nodes.lemma_filter_contains_rev(late, m);
        assert(e.nodes.contains(m));
    }
    assert(e.expired(now).executions =~= e.executions);
    assert(e.expired(now).nodes =~= e.nodes);
    if !v.has_overdue(w, now) {
        let g = |n: NodeView|
            if n.overdue(now) {
                NodeView { status: NodeStatus::Failed, updated_at: now, ..n }
            } else {
                n
            };
        assert(e.nodes =~= v.nodes.map_values(g));
        let p = |n: NodeView| n.workflow_id == w;
        lemma_filter_map(v.nodes, p, g);
        let t = v.nodes.filter(p);
        assert forall|i: int| 0 <= i < t.len() implies g(#[trigger] t[i]) == t[i] by {
            v.nodes.lemma_filter_pred(p, i);
            v.nodes.lemma_filter_contains_rev(p, t[i]);
            let j = choose|j: int| 0 <= j < v.nodes.len() && v.nodes[j] == t[i];
            assert(v.nodes[j].workflow_id == w);
        }
        assert(t.map_values(g) =~= t);
        let h = |r: RowView|
            if v.has_overdue(r.record.workflow_id, now) {
                RowView {
                    record: execution_store::ExecutionView {
                        status: ExecutionStatus::Failed,
                        error: Some("gate deadline expired"@),
                        updated_at: now,
                        ..r.record
                    },
                    ..r
                }
            } else {
                r
            };
        assert(e.executions =~= v.executions.map_values(h));
        let q = |r: RowView| r.record.workflow_id == w;
        lemma_first_map(v.executions, q, h);
        lemma_first_is(v.executions, q);
    }
}

/// A gate is overdue at the moments after its deadline, and at no others.
pub proof fn law_gate_is_overdue_after_its_deadline(n: NodeView, deadline: Instant, now: Instant)
    requires
        n.status == NodeStatus::Suspended,
        n.gate_deadline == Some(deadline.words()),
        deadline.sorts_as(deadline.words()),
        deadline.dated(),
        now.dated(),
    ensures
        n.overdue(now.words()) <==> deadline.earlier(now),
{
}

/// No operation gives two executions one id, nor two nodes of one execution.
pub proof fn law_rows_stay_keyed(
    v: StoreView,
    w: Seq<char>,
    id: Seq<char>,
    a: Seq<char>,
    b: Seq<char>,
    c: Seq<char>,
    d: Seq<char>,
    deadline: Option<Seq<char>>,
    status: ExecutionStatus,
    result: Option<Seq<char>>,
    error: Option<Seq<char>>,
    now: Seq<char>,
)
    requires
        v.keyed(),
    ensures
        v.started(w, id, now).keyed(),
        v.completed(w, id, a, now).keyed(),
        v.parked(w, id, a, b, c, d, deadline, now).keyed(),
        v.finished(w, status, result, error, now).keyed(),
        v.claimed(w, a, b).keyed(),
        v.renewed(w, a, b).keyed(),
        v.released(w, a).keyed(),
        v.expired(now).keyed(),
{
}

/// A new execution shares its id with no other, nor do its nodes share theirs.
pub proof fn law_new_execution_stays_keyed(
    v: StoreView,
    w: Seq<char>,
    spec_text: Seq<char>,
    payload: Seq<char>,
    ids: Seq<Seq<char>>,
    now: Seq<char>,
)
    requires
        v.keyed(),
        !v.has(w),
        v.nodes_of(w).len() == 0,
        ids.no_duplicates(),
    ensures
        v.created(w, spec_text, payload, ids, now).keyed(),
{
    let c = v.created(w, spec_text, payload, ids, now);
    let n = v.nodes.len();
    assert forall|i: int, j: int| 0 <= i < j < c.nodes.len() implies !((#[trigger] c.nodes[i]).workflow_id == (
    #[trigger] c.nodes[j]).workflow_id && c.nodes[i].node_id == c.nodes[j].node_id) by {
        if j < n {
            assert(c.nodes[i] == v.nodes[i] && c.nodes[j] == v.nodes[j]);
        } else if i < n {
            assert(c.nodes[i] == v.nodes[i]);
            if v.nodes[i].workflow_id == w {
                v.nodes.lemma_filter_contains(|a: NodeView| a.workflow_id == w, i);
            }
        } else {
            assert(ids[i - n] != ids[j - n]);
        }
    }
}

/// Whatever happens to an execution, the plan and the payload that it was entered
/// with stay with it.
pub proof fn law_plan_stays_with_the_execution(
    v: StoreView,
    w: Seq<char>,
    id: Seq<char>,
    a: Seq<char>,
    b: Seq<char>,
    c: Seq<char>,
    d: Seq<char>,
    deadline: Option<Seq<char>>,
    status: ExecutionStatus,
    result: Option<Seq<char>>,
    error: Option<Seq<char>>,
    now: Seq<char>,
)
    ensures
        same_plan(v, v.started(w, id, now), w),
        same_plan(v, v.completed(w, id, a, now), w),
        same_plan(v, v.parked(w, id, a, b, c, d, deadline, now), w),
        same_plan(v, v.finished(w, status, result, error, now), w),
        same_plan(v, v.claimed(w, a, b), w),
        same_plan(v, v.renewed(w, a, b), w),
        same_plan(v, v.released(w, a), w),
        same_plan(v, v.expired(now), w),
{
    lemma_nodes_with_node(v, w, id, |n: NodeView| n.started(now), w, id);
    lemma_nodes_with_node(v, w, id, |n: NodeView| n.completed(a, now), w, id);
    lemma_nodes_with_node(v, w, id, |n: NodeView| n.parked(a, b, c, d, deadline, now), w, id);
    execution_store::lemma_row_with_row(
        v,
        w,
        w,
        |r: RowView|
            RowView {
                record: execution_store::ExecutionView {
                    status,
                    result,
                    error,
                    updated_at: now,
                    ..r.record
                },
                ..r
            },
    );
    execution_store::lemma_row_with_row(
        v,
        w,
        w,
        |r: RowView| RowView { claimed_by: Some(a), lease_expires_at: Some(b), ..r },
    );
    execution_store::lemma_row_with_row(
        v,
        w,
        w,
        |r: RowView|
            if r.claimed_by == Some(a) {
                RowView { lease_expires_at: Some(b), ..r }
            } else {
                r
            },
    );
    execution_store::lemma_row_with_row(
        v,
        w,
        w,
        |r: RowView|
            if r.claimed_by == Some(a) {
                RowView { claimed_by: None, lease_expires_at: None, ..r }
            } else {
                r
            },
    );
    let h = |r: RowView|
        if v.has_overdue(r.record.workflow_id, now) {
            RowView {
                record: execution_store::ExecutionView {
                    status: ExecutionStatus::Failed,
                    error: Some("gate deadline expired"@),
                    updated_at: now,
                    ..r.record
                },
                ..r
            }
        } else {
            r
        };
    assert(v.expired(now).executions =~= v.executions.map_values(h));
    lemma_first_map(v.executions, |r: RowView| r.record.workflow_id == w, h);
}

/// Whether an execution has the same plan and payload in two stores.
pub open spec fn same_plan(u: StoreView, v: StoreView, w: Seq<char>) -> bool {
    match u.row(w) {
        None => v.row(w) is None,
        Some(r) => v.row(w) matches Some(x) && x.record.workflow_spec == r.record.workflow_spec
            && x.record.initial_payload == r.record.initial_payload && x.record.workflow_id
            == r.record.workflow_id,
    }
}

} // verus!

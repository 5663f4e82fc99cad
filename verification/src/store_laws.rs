//! What each operation does to the rows of executions and nodes, row by row.

use vstd::prelude::*;
use crate::execution_laws;
use crate::execution_store;
use crate::execution_store::{
    ExecutionStatus, ExecutionView, NodeStatus, NodeView, RowView, StoreView,
};
use crate::text;

verus! {

/// Whether one text comes before another: it is the shorter beginning of the other, or
/// has the smaller character where they first differ.
pub open spec fn comes_before(a: Seq<char>, b: Seq<char>, k: int) -> bool {
    &&& 0 <= k <= a.len()
    &&& k < b.len()
    &&& forall|i: int| 0 <= i < k ==> #[trigger] a[i] == b[i]
    &&& k == a.len() || (a[k] as int) < (b[k] as int)
}

/// Texts are in the order of their first difference.
pub proof fn law_order_of_texts(a: Seq<char>, b: Seq<char>)
    ensures
        text::lex_lt(a, b) <==> exists|k: int| comes_before(a, b, k),
    decreases a.len(),
{
    if b.len() > 0 && a.len() > 0 && a[0] == b[0] {
        let c = a.drop_first();
        let d = b.drop_first();
        law_order_of_texts(c, d);
        if text::lex_lt(a, b) {
            let k = choose|k: int| comes_before(c, d, k);
            assert forall|i: int| 0 <= i < k + 1 implies #[trigger] a[i] == b[i] by {
                if i > 0 {
                    assert(c[i - 1] == d[i - 1]);
                }
            }
            assert(comes_before(a, b, k + 1));
        }
        if exists|k: int| comes_before(a, b, k) {
            let k = choose|k: int| comes_before(a, b, k);
            assert(k > 0);
            assert forall|i: int| 0 <= i < k - 1 implies #[trigger] c[i] == d[i] by {
                assert(a[i + 1] == b[i + 1]);
            }
            assert(comes_before(c, d, k - 1));
        }
    } else if text::lex_lt(a, b) {
        assert(comes_before(a, b, 0));
    } else if exists|k: int| comes_before(a, b, k) {
        let k = choose|k: int| comes_before(a, b, k);
        if k > 0 {
            assert(a[0] == b[0]);
        }
    }
}

/// Whether a row is that of a node of an execution.
pub open spec fn row_of(n: NodeView, w: Seq<char>, id: Seq<char>) -> bool {
    n.workflow_id == w && n.node_id == id
}

/// A node that was handed to its agent runs from then on; nothing else in its row and
/// no other row changes.
pub proof fn law_node_is_started(v: StoreView, w: Seq<char>, id: Seq<char>, now: Seq<char>, i: int)
    requires
        0 <= i < v.nodes.len(),
    ensures
        ({
            let u = v.started(w, id, now);
            let n = v.nodes[i];
            let m = u.nodes[i];
            &&& u.executions == v.executions
            &&& u.nodes.len() == v.nodes.len()
            &&& !row_of(n, w, id) ==> m == n
            &&& row_of(n, w, id) ==> {
                &&& m.status == NodeStatus::Running
                &&& m.updated_at == now
                &&& m.workflow_id == w && m.node_id == id
                &&& m.output == n.output
                &&& m.session_id == n.session_id && m.approval_id == n.approval_id
                &&& m.kind == n.kind && m.prompt == n.prompt
                &&& m.gate_deadline == n.gate_deadline
            }
        }),
{
}

/// A node that has its answer is done with it, and nothing ties it to a decision any
/// more; no other row changes.
pub proof fn law_node_is_completed(
    v: StoreView,
    w: Seq<char>,
    id: Seq<char>,
    output: Seq<char>,
    now: Seq<char>,
    i: int,
)
    requires
        0 <= i < v.nodes.len(),
    ensures
        ({
            let u = v.completed(w, id, output, now);
            let n = v.nodes[i];
            let m = u.nodes[i];
            &&& u.executions == v.executions
            &&& u.nodes.len() == v.nodes.len()
            &&& !row_of(n, w, id) ==> m == n
            &&& row_of(n, w, id) ==> {
                &&& m.status == NodeStatus::Done
                &&& m.output == Some(output)
                &&& m.updated_at == now
                &&& m.workflow_id == w && m.node_id == id
                &&& m.session_id is None && m.approval_id is None
                &&& m.kind is None && m.prompt is None
                &&& m.gate_deadline is None
            }
        }),
{
}

/// A node that waits for a decision is suspended, and keeps what the decision is
/// about; no other row changes.
pub proof fn law_node_is_parked(
    v: StoreView,
    w: Seq<char>,
    id: Seq<char>,
    asked: (Seq<char>, Seq<char>, Seq<char>, Seq<char>),
    gate_deadline: Option<Seq<char>>,
    now: Seq<char>,
    i: int,
)
    requires
        0 <= i < v.nodes.len(),
    ensures
        ({
            let (session_id, approval_id, kind, prompt) = asked;
            let u = v.parked(w, id, session_id, approval_id, kind, prompt, gate_deadline, now);
            let n = v.nodes[i];
            let m = u.nodes[i];
            &&& u.executions == v.executions
            &&& u.nodes.len() == v.nodes.len()
            &&& !row_of(n, w, id) ==> m == n
            &&& row_of(n, w, id) ==> {
                &&& m.status == NodeStatus::Suspended
                &&& m.session_id == Some(session_id) && m.approval_id == Some(approval_id)
                &&& m.kind == Some(kind) && m.prompt == Some(prompt)
                &&& m.gate_deadline == gate_deadline
                &&& m.updated_at == now
                &&& m.output == n.output
                &&& m.workflow_id == w && m.node_id == id
            }
        }),
{
}

/// A new execution is entered behind the others: it runs, has neither a result nor an
/// error nor a holder, and each of its nodes waits for its turn.
pub proof fn law_execution_is_entered(
    v: StoreView,
    w: Seq<char>,
    spec_text: Seq<char>,
    payload: Seq<char>,
    ids: Seq<Seq<char>>,
    now: Seq<char>,
    i: int,
)
    ensures
        ({
            let u = v.created(w, spec_text, payload, ids, now);
            let r = u.executions[v.executions.len() as int];
            let n = u.nodes[v.nodes.len() + i];
            &&& u.executions.len() == v.executions.len() + 1
            &&& u.nodes.len() == v.nodes.len() + ids.len()
            &&& 0 <= i < v.executions.len() ==> u.executions[i] == v.executions[i]
            &&& 0 <= i < v.nodes.len() ==> u.nodes[i] == v.nodes[i]
            &&& r.record.workflow_id == w && r.record.status == ExecutionStatus::Running
            &&& r.record.workflow_spec == spec_text && r.record.initial_payload == payload
            &&& r.record.result is None && r.record.error is None
            &&& r.record.created_at == now && r.record.updated_at == now
            &&& r.claimed_by is None && r.lease_expires_at is None
            &&& 0 <= i < ids.len() ==> {
                &&& n.workflow_id == w && n.node_id == ids[i]
                &&& n.status == NodeStatus::Pending
                &&& n.output is None && n.session_id is None && n.approval_id is None
                &&& n.kind is None && n.prompt is None && n.gate_deadline is None
                &&& n.updated_at == now
            }
        }),
{
}

/// An execution that comes to stand in a new way has that status, result and error;
/// what it was made of and who holds it stays, and so does every other row.
pub proof fn law_execution_is_finished(
    v: StoreView,
    w: Seq<char>,
    status: ExecutionStatus,
    result: Option<Seq<char>>,
    error: Option<Seq<char>>,
    now: Seq<char>,
    i: int,
)
    requires
        0 <= i < v.executions.len(),
    ensures
        ({
            let u = v.finished(w, status, result, error, now);
            let r = v.executions[i];
            let s = u.executions[i];
            &&& u.nodes == v.nodes
            &&& u.executions.len() == v.executions.len()
            &&& r.record.workflow_id != w ==> s == r
            &&& r.record.workflow_id == w ==> {
                &&& s.record.status == status && s.record.result == result && s.record.error == error
                &&& s.record.updated_at == now
                &&& s.record.workflow_id == w && s.record.created_at == r.record.created_at
                &&& s.record.workflow_spec == r.record.workflow_spec
                &&& s.record.initial_payload == r.record.initial_payload
                &&& s.claimed_by == r.claimed_by && s.lease_expires_at == r.lease_expires_at
            }
        }),
{
}

/// Of executions with different ids, the one of an id is found.
pub proof fn lemma_row_at(v: StoreView, i: int)
    requires
        v.keyed(),
        0 <= i < v.executions.len(),
    ensures
        v.row(v.executions[i].record.workflow_id) == Some(v.executions[i]),
{
    let w = v.executions[i].record.workflow_id;
    let p = |r: RowView| r.record.workflow_id == w;
    execution_laws::lemma_first_is(v.executions, p);
    assert(p(v.executions[i]));
    let x = v.row(w)->0;
    assert(v.executions.contains(x));
    let j = choose|j: int| 0 <= j < v.executions.len() && v.executions[j] == x;
    assert(v.executions[j].record.workflow_id == w);
    if i < j {
        assert(v.executions[i].record.workflow_id != v.executions[j].record.workflow_id);
    } else if j < i {
        assert(v.executions[j].record.workflow_id != v.executions[i].record.workflow_id);
    }
}

/// A driver may take an execution exactly if nobody holds it, or the driver itself
/// does, or the hold ended before now. An execution that there is not cannot be taken.
pub proof fn law_who_may_take(v: StoreView, driver: Seq<char>, now: Seq<char>, w: Seq<char>, i: int)
    requires
        v.keyed(),
        0 <= i < v.executions.len(),
    ensures
        ({
            let r = v.executions[i];
            v.claimable(r.record.workflow_id, driver, now) <==> {
                ||| r.claimed_by is None
                ||| r.claimed_by == Some(driver)
                ||| (r.lease_expires_at matches Some(t) && text::lex_lt(t, now))
            }
        }),
        (forall|j: int| 0 <= j < v.executions.len() ==> (#[trigger] v.executions[j]).record.workflow_id != w)
            ==> !v.claimable(w, driver, now),
{
    lemma_row_at(v, i);
    if forall|j: int| 0 <= j < v.executions.len() ==> (#[trigger] v.executions[j]).record.workflow_id != w {
        execution_laws::lemma_first_is(v.executions, |r: RowView| r.record.workflow_id == w);
        if v.row(w) is Some {
            let x = v.row(w)->0;
            let j = choose|j: int| 0 <= j < v.executions.len() && v.executions[j] == x;
            assert(v.executions[j].record.workflow_id != w);
        }
    }
}

/// An execution that is taken is held by the driver until the end that was given. A
/// hold is put off, and given up, only for the one who has it. Records and nodes stay.
pub proof fn law_hold_of_an_execution(v: StoreView, w: Seq<char>, driver: Seq<char>, until: Seq<char>, i: int)
    requires
        0 <= i < v.executions.len(),
    ensures
        ({
            let r = v.executions[i];
            let taken = v.claimed(w, driver, until);
            let put_off = v.renewed(w, driver, until);
            let given_up = v.released(w, driver);
            let its = r.record.workflow_id == w;
            let holds = its && r.claimed_by == Some(driver);
            &&& taken.nodes == v.nodes && put_off.nodes == v.nodes && given_up.nodes == v.nodes
            &&& taken.executions.len() == v.executions.len()
            &&& put_off.executions.len() == v.executions.len()
            &&& given_up.executions.len() == v.executions.len()
            &&& taken.executions[i].record == r.record
            &&& put_off.executions[i].record == r.record
            &&& given_up.executions[i].record == r.record
            &&& taken.executions[i].claimed_by == if its { Some(driver) } else { r.claimed_by }
            &&& taken.executions[i].lease_expires_at == if its { Some(until) } else { r.lease_expires_at }
            &&& put_off.executions[i].claimed_by == r.claimed_by
            &&& put_off.executions[i].lease_expires_at == if holds { Some(until) } else { r.lease_expires_at }
            &&& given_up.executions[i].claimed_by == if holds { None } else { r.claimed_by }
            &&& given_up.executions[i].lease_expires_at == if holds { None } else { r.lease_expires_at }
        }),
{
}

/// Whether a node waits behind a gate whose deadline lies before now.
pub open spec fn waits_too_long(n: NodeView, now: Seq<char>) -> bool {
    n.status == NodeStatus::Suspended && (n.gate_deadline matches Some(d) && text::lex_lt(d, now))
}

/// A sweep fails each node that has waited too long, and the execution it belongs to
/// with the words for it. Every other node, and every other execution, stays as it
/// was.
pub proof fn law_sweep_of_gates(v: StoreView, now: Seq<char>, i: int, j: int)
    ensures
        ({
            let u = v.expired(now);
            &&& u.nodes.len() == v.nodes.len()
            &&& u.executions.len() == v.executions.len()
            &&& 0 <= i < v.nodes.len() && !waits_too_long(v.nodes[i], now) ==> u.nodes[i] == v.nodes[i]
            &&& 0 <= i < v.nodes.len() && waits_too_long(v.nodes[i], now) ==> {
                &&& u.nodes[i].status == NodeStatus::Failed
                &&& u.nodes[i].updated_at == now
                &&& u.nodes[i].workflow_id == v.nodes[i].workflow_id
                &&& u.nodes[i].node_id == v.nodes[i].node_id
                &&& u.nodes[i].output == v.nodes[i].output
                &&& u.nodes[i].session_id == v.nodes[i].session_id
                &&& u.nodes[i].approval_id == v.nodes[i].approval_id
                &&& u.nodes[i].kind == v.nodes[i].kind
                &&& u.nodes[i].prompt == v.nodes[i].prompt
                &&& u.nodes[i].gate_deadline == v.nodes[i].gate_deadline
            }
            &&& 0 <= i < v.nodes.len() && 0 <= j < v.executions.len() && waits_too_long(v.nodes[i], now)
                && v.nodes[i].workflow_id == v.executions[j].record.workflow_id ==> {
                &&& u.executions[j].record.status == ExecutionStatus::Failed
                &&& u.executions[j].record.error == Some("gate deadline expired"@)
                &&& u.executions[j].record.updated_at == now
                &&& u.executions[j].record.workflow_id == v.executions[j].record.workflow_id
                &&& u.executions[j].record.workflow_spec == v.executions[j].record.workflow_spec
                &&& u.executions[j].record.initial_payload == v.executions[j].record.initial_payload
                &&& u.executions[j].record.result == v.executions[j].record.result
                &&& u.executions[j].record.created_at == v.executions[j].record.created_at
                &&& u.executions[j].claimed_by == v.executions[j].claimed_by
                &&& u.executions[j].lease_expires_at == v.executions[j].lease_expires_at
            }
            &&& 0 <= j < v.executions.len() && (forall|k: int|
                0 <= k < v.nodes.len() && (#[trigger] v.nodes[k]).workflow_id == v.executions[j].record.workflow_id
                    ==> !waits_too_long(v.nodes[k], now)) ==> u.executions[j] == v.executions[j]
        }),
{
}

/// A sweep tells each node that has waited too long, and no other, by its execution and
/// its id.
pub proof fn law_what_a_sweep_tells(v: StoreView, now: Seq<char>, w: Seq<char>, id: Seq<char>)
    ensures
        v.overdue_pairs(now).contains((w, id)) <==> exists|i: int|
            0 <= i < v.nodes.len() && row_of(#[trigger] v.nodes[i], w, id) && waits_too_long(v.nodes[i], now),
{
    let p = |n: NodeView| n.overdue(now);
    let s = v.nodes.filter(p);
    let told = v.overdue_pairs(now);
    if told.contains((w, id)) {
        let k = choose|k: int| 0 <= k < told.len() && told[k] == (w, id);
        v.nodes.lemma_filter_pred(p, k);
        assert(s.contains(s[k]));
        v.nodes.lemma_filter_contains_rev(p, s[k]);
        let i = choose|i: int| 0 <= i < v.nodes.len() && v.nodes[i] == s[k];
        assert(row_of(v.nodes[i], w, id));
    }
    if exists|i: int|
        0 <= i < v.nodes.len() && row_of(#[trigger] v.nodes[i], w, id) && waits_too_long(v.nodes[i], now) {
        let i = choose|i: int|
            0 <= i < v.nodes.len() && row_of(#[trigger] v.nodes[i], w, id) && waits_too_long(v.nodes[i], now);
        assert(p(v.nodes[i]));
        v.nodes.lemma_filter_contains(p, i);
        let k = choose|k: int| 0 <= k < s.len() && s[k] == v.nodes[i];
        assert(told[k] == (w, id));
    }
}

/// A second sweep at the same time finds nothing more to fail.
pub proof fn law_sweep_leaves_nothing(v: StoreView, now: Seq<char>)
    ensures
        v.expired(now).overdue_pairs(now).len() == 0,
{
    let u = v.expired(now);
    let told = u.overdue_pairs(now);
    if told.len() > 0 {
        let (w, id) = told[0];
        assert(told.contains((w, id)));
        law_what_a_sweep_tells(u, now, w, id);
        let i = choose|i: int|
            0 <= i < u.nodes.len() && row_of(#[trigger] u.nodes[i], w, id) && waits_too_long(u.nodes[i], now);
        law_sweep_of_gates(v, now, i, 0);
    }
}

/// The executions that are listed as active are those that run or are suspended.
pub proof fn law_active_executions(v: StoreView, e: ExecutionView)
    ensures
        v.active().contains(e) <==> (e.status == ExecutionStatus::Running || e.status
            == ExecutionStatus::Suspended) && exists|i: int|
            0 <= i < v.executions.len() && (#[trigger] v.executions[i]).record == e,
{
    let p = |e: ExecutionView|
        e.status == ExecutionStatus::Running || e.status == ExecutionStatus::Suspended;
    let all = v.records();
    if v.active().contains(e) {
        all.lemma_filter_contains_rev(p, e);
        let k = choose|k: int| 0 <= k < v.active().len() && v.active()[k] == e;
        all.lemma_filter_pred(p, k);
        let i = choose|i: int| 0 <= i < all.len() && all[i] == e;
        assert(v.executions[i].record == e);
    }
    if p(e) && exists|i: int| 0 <= i < v.executions.len() && (#[trigger] v.executions[i]).record == e {
        let i = choose|i: int| 0 <= i < v.executions.len() && (#[trigger] v.executions[i]).record == e;
        assert(all[i] == e);
        all.lemma_filter_contains(p, i);
    }
}

/// The words in which the standing of executions and nodes is kept.
pub proof fn law_words_of_standing(s: Seq<char>)
    ensures
        ExecutionStatus::Running.label() == "running"@,
        ExecutionStatus::Suspended.label() == "suspended"@,
        ExecutionStatus::Succeeded.label() == "succeeded"@,
        ExecutionStatus::Failed.label() == "failed"@,
        NodeStatus::Pending.label() == "pending"@,
        NodeStatus::Running.label() == "running"@,
        NodeStatus::Done.label() == "done"@,
        NodeStatus::Suspended.label() == "suspended"@,
        NodeStatus::Failed.label() == "failed"@,
        s != "suspended"@ && s != "succeeded"@ && s != "failed"@ ==> ExecutionStatus::of_label(s)
            == ExecutionStatus::Running,
        s != "running"@ && s != "done"@ && s != "suspended"@ && s != "failed"@ ==> NodeStatus::of_label(s)
            == NodeStatus::Pending,
{
}

/// The nodes of an execution are the rows that name it, and the execution is the row of
/// its id.
pub proof fn law_execution_is_loaded(v: StoreView, w: Seq<char>, n: NodeView)
    ensures
        v.nodes_of(w).contains(n) <==> n.workflow_id == w && v.nodes.contains(n),
        v.row(w) matches Some(r) ==> r.record.workflow_id == w && v.executions.contains(r),
        v.row(w) is None <==> forall|i: int|
            0 <= i < v.executions.len() ==> (#[trigger] v.executions[i]).record.workflow_id != w,
{
    let p = |n: NodeView| n.workflow_id == w;
    if v.nodes_of(w).contains(n) {
        v.nodes.lemma_filter_contains_rev(p, n);
        let k = choose|k: int| 0 <= k < v.nodes_of(w).len() && v.nodes_of(w)[k] == n;
        v.nodes.lemma_filter_pred(p, k);
    }
    if n.workflow_id == w && v.nodes.contains(n) {
        let i = choose|i: int| 0 <= i < v.nodes.len() && v.nodes[i] == n;
        v.nodes.lemma_filter_contains(p, i);
    }
    let q = |r: RowView| r.record.workflow_id == w;
    execution_laws::lemma_first_is(v.executions, q);
    if v.row(w) is None {
        assert forall|i: int| 0 <= i < v.executions.len() implies (#[trigger] v.executions[i]).record.workflow_id
            != w by {
            assert(!q(v.executions[i]));
        }
    } else {
        let r = v.row(w)->0;
        assert(q(r));
        let i = choose|i: int| 0 <= i < v.executions.len() && v.executions[i] == r;
        assert(v.executions[i].record.workflow_id == w);
    }
}

proof fn lemma_filter_push<A>(s: Seq<A>, p: spec_fn(A) -> bool, x: A)
    ensures
        s.push(x).filter(p) == if p(x) {
            s.filter(p).push(x)
        } else {
            s.filter(p)
        },
{
    reveal(Seq::filter);
    assert(s.push(x).drop_last() =~= s);
}

/// What is listed of executions and nodes stands in the order in which they were
/// entered: one more of them is listed behind the others, or not at all.
pub proof fn law_lists_keep_their_order(v: StoreView, r: RowView, n: NodeView, w: Seq<char>, now: Seq<char>)
    ensures
        ({
            let u = StoreView { executions: v.executions.push(r), nodes: v.nodes.push(n) };
            &&& u.active() == if r.record.status == ExecutionStatus::Running || r.record.status
                == ExecutionStatus::Suspended {
                v.active().push(r.record)
            } else {
                v.active()
            }
            &&& u.nodes_of(w) == if n.workflow_id == w {
                v.nodes_of(w).push(n)
            } else {
                v.nodes_of(w)
            }
            &&& u.overdue_pairs(now) == if waits_too_long(n, now) {
                v.overdue_pairs(now).push((n.workflow_id, n.node_id))
            } else {
                v.overdue_pairs(now)
            }
        }),
{
    let u = StoreView { executions: v.executions.push(r), nodes: v.nodes.push(n) };
    assert(u.records() =~= v.records().push(r.record));
    lemma_filter_push(
        v.records(),
        |e: ExecutionView| e.status == ExecutionStatus::Running || e.status == ExecutionStatus::Suspended,
        r.record,
    );
    lemma_filter_push(v.nodes, |n: NodeView| n.workflow_id == w, n);
    lemma_filter_push(v.nodes, |n: NodeView| n.overdue(now), n);
    let p = |n: NodeView| n.overdue(now);
    let late = v.nodes.filter(p);
    assert(execution_store::pairs(late.push(n)) =~= execution_store::pairs(late).push(
        (n.workflow_id, n.node_id),
    ));
}

/// Of several that fit, the first is taken.
pub proof fn law_first_that_fits(s: Seq<NodeView>, p: spec_fn(NodeView) -> bool, k: int)
    requires
        0 <= k < s.len(),
        p(s[k]),
        forall|i: int| 0 <= i < k ==> !p(#[trigger] s[i]),
    ensures
        execution_store::first(s, p) == Some(s[k]),
    decreases s.len(),
{
    if k > 0 {
        assert(!p(s[0]));
        let t = s.drop_first();
        assert forall|i: int| 0 <= i < k - 1 implies !p(#[trigger] t[i]) by {
            assert(t[i] == s[i + 1]);
        }
        law_first_that_fits(t, p, k - 1);
    }
}

} // verus!

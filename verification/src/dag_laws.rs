//! What holds of every planned DAG that can be built.

use vstd::prelude::*;
use crate::dag;
use crate::dag::DagNodeView;
use crate::orchestrator;
use crate::workflow;
use crate::workflow::EdgeView;

verus! {

/// Whether the node `x` depends on `y`.
pub open spec fn depends(d: Seq<DagNodeView>, x: Seq<char>, y: Seq<char>) -> bool {
    exists|i: int| 0 <= i < d.len() && (#[trigger] d[i]).id == x && d[i].depends_on.contains(y)
}

/// Whether each node of `p` depends on the one before it.
pub open spec fn is_chain(d: Seq<DagNodeView>, p: Seq<Seq<char>>) -> bool {
    forall|i: int, j: int|
        0 <= i && j == i + 1 && j < p.len() ==> depends(d, #[trigger] p[j], #[trigger] p[i])
}

/// Whether some node depends on itself, by way of others or at once.
pub open spec fn circular(d: Seq<DagNodeView>) -> bool {
    exists|p: Seq<Seq<char>>| #[trigger] is_chain(d, p) && p.len() >= 2 && p[0] == p.last()
}

/// Whether `x` is a node without dependencies.
pub open spec fn is_entry(d: Seq<DagNodeView>, x: Seq<char>) -> bool {
    exists|i: int| 0 <= i < d.len() && (#[trigger] d[i]).id == x && d[i].depends_on.len() == 0
}

/// An edge leads from a node to another exactly where the other depends on it.
pub proof fn lemma_linked(d: Seq<DagNodeView>, a: Seq<char>, b: Seq<char>)
    ensures
        workflow::linked(orchestrator::mirrored(d).edges, a, b) <==> depends(d, b, a),
{
    let es = orchestrator::mirrored(d).edges;
    orchestrator::lemma_mirrored_edges(d, d.len());
    if workflow::linked(es, a, b) {
        let n = choose|n: int| 0 <= n < es.len() && (#[trigger] es[n]).from == a && es[n].to == b;
        assert(es.contains(es[n]));
        let (i, k) = choose|i: int, k: int|
            0 <= i < d.len() && 0 <= k < d[i].depends_on.len() && es[n] == (EdgeView {
                from: #[trigger] d[i].depends_on[k],
                to: d[i].id,
                when: None,
            });
        assert(d[i].id == b && d[i].depends_on.contains(a));
    }
    if depends(d, b, a) {
        let i = choose|i: int| 0 <= i < d.len() && (#[trigger] d[i]).id == b && d[i].depends_on.contains(a);
        let k = choose|k: int| 0 <= k < d[i].depends_on.len() && d[i].depends_on[k] == a;
        let e = EdgeView { from: d[i].depends_on[k], to: d[i].id, when: None };
        assert(es.contains(e));
        let n = choose|n: int| 0 <= n < es.len() && es[n] == e;
        assert(es[n].from == a && es[n].to == b);
    }
}

/// A chain of dependencies is a walk along the edges of the workflow.
proof fn lemma_chain_is_walk(d: Seq<DagNodeView>, p: Seq<Seq<char>>)
    ensures
        is_chain(d, p) <==> workflow::is_walk(orchestrator::mirrored(d).edges, p),
{
    let es = orchestrator::mirrored(d).edges;
    if is_chain(d, p) {
        assert forall|i: int, j: int| 0 <= i && j == i + 1 && j < p.len() implies workflow::linked(
            es,
            #[trigger] p[i],
            #[trigger] p[j],
        ) by {
            lemma_linked(d, p[i], p[j]);
        }
    }
    if workflow::is_walk(es, p) {
        assert forall|i: int, j: int| 0 <= i && j == i + 1 && j < p.len() implies depends(
            d,
            #[trigger] p[j],
            #[trigger] p[i],
        ) by {
            assert(workflow::linked(es, p[i], p[j]));
            lemma_linked(d, p[i], p[j]);
        }
    }
}

/// A DAG is circular exactly if the workflow that mirrors it has a cycle.
pub proof fn law_circular_is_cyclic(d: Seq<DagNodeView>)
    ensures
        circular(d) <==> workflow::cyclic(orchestrator::mirrored(d).edges),
{
    let es = orchestrator::mirrored(d).edges;
    if circular(d) {
        let p = choose|p: Seq<Seq<char>>| #[trigger] is_chain(d, p) && p.len() >= 2 && p[0] == p.last();
        lemma_chain_is_walk(d, p);
    }
    if workflow::cyclic(es) {
        let p = choose|p: Seq<Seq<char>>| #[trigger]
            workflow::is_walk(es, p) && p.len() >= 2 && p[0] == p.last();
        lemma_chain_is_walk(d, p);
    }
}

/// A chain that is longer than the DAG comes back to a node.
proof fn lemma_long_chain(d: Seq<DagNodeView>, p: Seq<Seq<char>>)
    requires
        is_chain(d, p),
        p.len() > d.len(),
        forall|i: int| 0 <= i < p.len() ==> dag::is_id(d, #[trigger] p[i]),
    ensures
        circular(d),
{
    let u = dag::ids_of(d);
    assert forall|i: int| 0 <= i < p.len() implies u.contains(#[trigger] p[i]) by {
        let j = choose|j: int| 0 <= j < d.len() && (#[trigger] d[j]).id == p[i];
        assert(u[j] == p[i]);
    }
    if p.no_duplicates() {
        workflow::lemma_fits(p, u);
    }
    let (i, j) = choose|i: int, j: int|
        0 <= i < p.len() && 0 <= j < p.len() && i != j && p[i] == p[j];
    let a = if i < j {
        i
    } else {
        j
    };
    let b = if i < j {
        j
    } else {
        i
    };
    let c = p.subrange(a, b + 1);
    assert forall|x: int, y: int| 0 <= x && y == x + 1 && y < c.len() implies depends(
        d,
        #[trigger] c[y],
        #[trigger] c[x],
    ) by {
        assert(c[x] == p[x + a] && c[y] == p[y + a]);
    }
    assert(is_chain(d, c) && c.len() >= 2 && c[0] == c.last());
}

/// A chain that ends at `x`: it begins at an entry, or has `k` nodes.
proof fn lemma_chain_to(d: Seq<DagNodeView>, x: Seq<char>, k: nat) -> (p: Seq<Seq<char>>)
    requires
        dag::sound(d),
        dag::is_id(d, x),
        k > 0,
    ensures
        is_chain(d, p),
        p.len() > 0,
        p.last() == x,
        forall|i: int| 0 <= i < p.len() ==> dag::is_id(d, #[trigger] p[i]),
        is_entry(d, p[0]) || p.len() == k,
    decreases k,
{
    if k == 1 {
        seq![x]
    } else {
        let q = lemma_chain_to(d, x, (k - 1) as nat);
        if is_entry(d, q[0]) {
            q
        } else {
            assert(dag::is_id(d, q[0]));
            let j = choose|j: int| 0 <= j < d.len() && (#[trigger] d[j]).id == q[0];
            assert(d[j].depends_on.len() > 0);
            let y = d[j].depends_on[0];
            assert(d[j].depends_on.contains(y));
            assert(dag::is_id(d, y));
            assert(depends(d, q[0], y));
            let p = seq![y] + q;
            assert forall|a: int, b: int| 0 <= a && b == a + 1 && b < p.len() implies depends(
                d,
                #[trigger] p[b],
                #[trigger] p[a],
            ) by {
                if a > 0 {
                    assert(p[a] == q[a - 1] && p[b] == q[b - 1]);
                }
            }
            assert forall|i: int| 0 <= i < p.len() implies dag::is_id(d, #[trigger] p[i]) by {
                if i > 0 {
                    assert(p[i] == q[i - 1]);
                }
            }
            p
        }
    }
}

/// A chain that begins at `x`: no node depends on its end, or it has `k` nodes.
proof fn lemma_chain_from(d: Seq<DagNodeView>, x: Seq<char>, k: nat) -> (p: Seq<Seq<char>>)
    requires
        dag::is_id(d, x),
        k > 0,
    ensures
        is_chain(d, p),
        p.len() > 0,
        p[0] == x,
        forall|i: int| 0 <= i < p.len() ==> dag::is_id(d, #[trigger] p[i]),
        !dag::depended_on(d, p.last()) || p.len() == k,
    decreases k,
{
    if k == 1 {
        seq![x]
    } else {
        let q = lemma_chain_from(d, x, (k - 1) as nat);
        if !dag::depended_on(d, q.last()) {
            q
        } else {
            let i = choose|i: int| 0 <= i < d.len() && (#[trigger] d[i]).depends_on.contains(q.last());
            let y = d[i].id;
            assert(depends(d, y, q.last()));
            let p = q.push(y);
            assert forall|a: int, b: int| 0 <= a && b == a + 1 && b < p.len() implies depends(
                d,
                #[trigger] p[b],
                #[trigger] p[a],
            ) by {
                if b < q.len() {
                    assert(p[a] == q[a] && p[b] == q[b]);
                }
            }
            assert forall|j: int| 0 <= j < p.len() implies dag::is_id(d, #[trigger] p[j]) by {
                if j < q.len() {
                    assert(p[j] == q[j]);
                } else {
                    assert(d[i].id == p[j]);
                }
            }
            p
        }
    }
}

/// Every node of a DAG that is not circular lies on a chain of dependencies that
/// begins at an entry and ends at a node that no node depends on.
pub proof fn law_every_node_lies_between(d: Seq<DagNodeView>, x: Seq<char>)
    requires
        dag::sound(d),
        !circular(d),
        dag::is_id(d, x),
    ensures
        exists|p: Seq<Seq<char>>| #[trigger]
            is_chain(d, p) && p.len() > 0 && p.contains(x) && dag::ids_of(dag::entry_nodes(d)).contains(p[0])
                && dag::ids_of(dag::terminal_nodes(d)).contains(p.last()),
{
    let p = lemma_chain_to(d, x, d.len() + 1);
    if !is_entry(d, p[0]) {
        lemma_long_chain(d, p);
    }
    let q = lemma_chain_from(d, x, d.len() + 1);
    if dag::depended_on(d, q.last()) {
        lemma_long_chain(d, q);
    }
    let c = p + q.skip(1);
    let n = p.len() as int;
    assert forall|a: int, b: int| 0 <= a && b == a + 1 && b < c.len() implies depends(
        d,
        #[trigger] c[b],
        #[trigger] c[a],
    ) by {
        if b < n {
            assert(c[a] == p[a] && c[b] == p[b]);
        } else if a < n {
            assert(c[a] == q[0] && c[b] == q[1]);
        } else {
            assert(c[a] == q[a - n + 1] && c[b] == q[b - n + 1]);
        }
    }
    assert(c[n - 1] == x);
    assert(c.contains(x));
    assert(c.last() == q.last());
    let free = |m: DagNodeView| m.depends_on.len() == 0;
    let i = choose|i: int| 0 <= i < d.len() && (#[trigger] d[i]).id == p[0] && d[i].depends_on.len() == 0;
    d.lemma_filter_contains(free, i);
    let a = choose|a: int| 0 <= a < d.filter(free).len() && d.filter(free)[a] == d[i];
    assert(dag::ids_of(dag::entry_nodes(d))[a] == c[0]);
    let last = |m: DagNodeView| !dag::depended_on(d, m.id);
    assert(dag::is_id(d, q[q.len() - 1]));
    let j = choose|j: int| 0 <= j < d.len() && (#[trigger] d[j]).id == q.last();
    d.lemma_filter_contains(last, j);
    let b = choose|b: int| 0 <= b < d.filter(last).len() && d.filter(last)[b] == d[j];
    assert(dag::ids_of(dag::terminal_nodes(d))[b] == c.last());
    assert(is_chain(d, c));
}

/// Nodes picked out of ones whose ids differ have ids that differ.
pub proof fn lemma_picked_ids(d: Seq<DagNodeView>, p: spec_fn(DagNodeView) -> bool)
    requires
        forall|i: int, j: int| 0 <= i < j < d.len() ==> (#[trigger] d[i]).id != (#[trigger] d[j]).id,
    ensures
        dag::ids_of(d.filter(p)).no_duplicates(),
        forall|k: int| 0 <= k < d.filter(p).len() ==> dag::is_id(d, (#[trigger] d.filter(p)[k]).id),
    decreases d.len(),
{
    reveal(Seq::filter);
    if d.len() > 0 {
        let t = d.drop_last();
        assert forall|i: int, j: int| 0 <= i < j < t.len() implies (#[trigger] t[i]).id != (#[trigger] t[j]).id by {
            assert(t[i] == d[i] && t[j] == d[j]);
        }
        lemma_picked_ids(t, p);
        let s = t.filter(p);
        assert forall|k: int| 0 <= k < s.len() implies dag::is_id(d, (#[trigger] s[k]).id) && s[k].id
            != d.last().id by {
            assert(dag::is_id(t, s[k].id));
            let j = choose|j: int| 0 <= j < t.len() && (#[trigger] t[j]).id == s[k].id;
            assert(d[j].id == s[k].id);
        }
        let f = d.filter(p);
        let ids = dag::ids_of(f);
        assert forall|i: int, j: int| 0 <= i < ids.len() && 0 <= j < ids.len() && i != j implies ids[i]
            != ids[j] by {
            if i < s.len() && j < s.len() {
                assert(dag::ids_of(s)[i] == ids[i] && dag::ids_of(s)[j] == ids[j]);
            } else if i < s.len() {
                assert(f[i] == s[i]);
            } else if j < s.len() {
                assert(f[j] == s[j]);
            }
        }
        assert forall|k: int| 0 <= k < f.len() implies dag::is_id(d, (#[trigger] f[k]).id) by {
            if k < s.len() {
                assert(f[k] == s[k]);
            } else {
                assert(d[d.len() - 1].id == f[k].id);
            }
        }
    }
}

/// A DAG that can be built and is not circular begins somewhere and ends somewhere,
/// and names no entry and no end twice.
pub proof fn law_dag_has_both_ends(d: Seq<DagNodeView>)
    requires
        dag::sound(d),
        !circular(d),
    ensures
        dag::entry_nodes(d).len() > 0,
        dag::terminal_nodes(d).len() > 0,
        dag::ids_of(dag::entry_nodes(d)).no_duplicates(),
        dag::ids_of(dag::terminal_nodes(d)).no_duplicates(),
{
    let x = d[0].id;
    assert(dag::is_id(d, x));
    law_every_node_lies_between(d, x);
    lemma_picked_ids(d, |n: DagNodeView| n.depends_on.len() == 0);
    lemma_picked_ids(d, |n: DagNodeView| !dag::depended_on(d, n.id));
}

} // verus!

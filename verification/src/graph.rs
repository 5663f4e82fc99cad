//! Drawings of workflows, as Mermaid text.

use vstd::prelude::*;
use vstd::string::*;
use crate::text;
use crate::workflow;
use crate::workflow::{Edge, EdgeView, Workflow, WorkflowView};

verus! {

/// The line for an edge. One that is followed on a condition is dotted.
pub open spec fn edge_line(e: EdgeView) -> Seq<char> {
    "\n    "@ + e.from + (if e.when is None {
        " --> "@
    } else {
        " -.-> "@
    }) + e.to
}

/// The lines for the first `n` edges.
pub open spec fn edge_lines(edges: Seq<EdgeView>, n: nat) -> Seq<char>
    decreases n,
{
    if n == 0 {
        Seq::empty()
    } else {
        edge_lines(edges, (n - 1) as nat) + edge_line(edges[n - 1])
    }
}

/// Whether an edge begins or ends at `x`.
pub open spec fn joined(edges: Seq<EdgeView>, x: Seq<char>) -> bool {
    exists|i: int| 0 <= i < edges.len() && ((#[trigger] edges[i]).from == x || edges[i].to == x)
}

/// The lines for those of the first `n` entries that no edge shows.
pub open spec fn entry_lines(w: WorkflowView, n: nat) -> Seq<char>
    decreases n,
{
    if n == 0 {
        Seq::empty()
    } else {
        let prior = entry_lines(w, (n - 1) as nat);
        if joined(w.edges, w.entries[n - 1]) {
            prior
        } else {
            prior + "\n    "@ + w.entries[n - 1]
        }
    }
}

/// A workflow as a Mermaid graph from the top down: the entries that stand alone,
/// and the edges in declaration order.
pub open spec fn graph_text(w: WorkflowView) -> Seq<char> {
    "graph TD"@ + entry_lines(w, w.entries.len()) + edge_lines(w.edges, w.edges.len())
}

/// See `joined`.
fn is_joined(edges: &Vec<Edge>, x: &str) -> (r: bool)
    ensures
        r == joined(workflow::edge_views(edges@), x@),
{
    let ghost es = workflow::edge_views(edges@);
    let mut i: usize = 0;
    while i < edges.len()
        invariant
            i <= edges@.len(),
            es == workflow::edge_views(edges@),
            forall|j: int| 0 <= j < i ==> (#[trigger] es[j]).from != x@ && es[j].to != x@,
        decreases edges@.len() - i,
    {
        assert(es[i as int] == edges@[i as int]@);
        if text::same(edges[i].from.as_str(), x) || text::same(edges[i].to.as_str(), x) {
            return true;
        }
        i += 1;
    }
    false
}

/// See `graph_text`.
pub fn workflow_graph(workflow: &Workflow) -> (r: String)
    ensures
        r@ == graph_text(workflow@),
{
    let ghost w = workflow@;
    let mut out = "graph TD".to_string();
    let mut i: usize = 0;
    assert("graph TD"@ + entry_lines(w, 0) =~= "graph TD"@);
    while i < workflow.entries.len()
        invariant
            i <= workflow.entries@.len(),
            w == workflow@,
            out@ == "graph TD"@ + entry_lines(w, i as nat),
        decreases workflow.entries@.len() - i,
    {
        assert(w.entries[i as int] == workflow.entries@[i as int]@);
        if !is_joined(&workflow.edges, workflow.entries[i].as_str()) {
            out.append("\n    ");
            out.append(workflow.entries[i].as_str());
            assert(out@ =~= "graph TD"@ + entry_lines(w, (i + 1) as nat));
        }
        i += 1;
    }
    let ghost head = out@;
    let mut k: usize = 0;
    assert(head + edge_lines(w.edges, 0) =~= head);
    while k < workflow.edges.len()
        invariant
            k <= workflow.edges@.len(),
            w == workflow@,
            out@ == head + edge_lines(w.edges, k as nat),
        decreases workflow.edges@.len() - k,
    {
        let e = &workflow.edges[k];
        assert(w.edges[k as int] == e@);
        out.append("\n    ");
        out.append(e.from.as_str());
        match &e.when {
            None => {
                out.append(" --> ");
            },
            Some(_) => {
                out.append(" -.-> ");
            },
        }
        out.append(e.to.as_str());
        assert(out@ =~= head + edge_lines(w.edges, (k + 1) as nat));
        k += 1;
    }
    out
}

} // verus!

//! Workflows: graphs of agents, checked before they run.

use vstd::prelude::*;
use vstd::string::*;
use crate::error::{AetherError, ErrorView};
use crate::registry;
use crate::registry::AgentRegistry;
use crate::text;
use crate::types::{copy_texts, AgentNodeView};

verus! {

/// When a conditional edge is followed. Tests and extractors are functions of the
/// embedding program, known here by their numbers.
#[derive(Debug, PartialEq, Eq)]
pub enum EdgePredicate {
    /// The test with this number says yes of the response.
    Test { id: usize },
    /// The capability that the extractor with this number reads in the response
    /// is one of `capabilities`.
    Serves { extractor: usize, capabilities: Vec<String> },
}

/// An `EdgePredicate` as a mathematical value.
#[verifier::ext_equal]
pub enum PredicateView {
    Test { id: usize },
    Serves { extractor: usize, capabilities: Seq<Seq<char>> },
}

impl View for EdgePredicate {
    type V = PredicateView;

    open spec fn view(&self) -> PredicateView {
        match *self {
            EdgePredicate::Test { id } => PredicateView::Test { id },
            EdgePredicate::Serves { extractor, capabilities } => PredicateView::Serves {
                extractor,
                capabilities: text::strs(capabilities@),
            },
        }
    }
}

/// What the tests and extractors of the embedding program say of one response.
#[derive(Debug, PartialEq, Eq)]
pub struct Answers {
    pub tests: Vec<bool>,
    pub capabilities: Vec<String>,
}

/// An edge of a workflow.
#[derive(Debug, PartialEq, Eq)]
pub struct Edge {
    pub from: String,
    pub to: String,
    /// `None` is an edge that is always followed.
    pub when: Option<EdgePredicate>,
}

/// An `Edge` as a mathematical value.
#[verifier::ext_equal]
pub struct EdgeView {
    pub from: Seq<char>,
    pub to: Seq<char>,
    pub when: Option<PredicateView>,
}

impl View for Edge {
    type V = EdgeView;

    open spec fn view(&self) -> EdgeView {
        EdgeView {
            from: self.from@,
            to: self.to@,
            when: condition(self.when),
        }
    }
}

/// The condition of an edge as a mathematical value.
pub open spec fn condition(when: Option<EdgePredicate>) -> Option<PredicateView> {
    match when {
        Some(p) => Some(p@),
        None => None,
    }
}

impl EdgeView {
    /// Whether the edge is followed after a response with these answers.
    pub open spec fn fires(self, tests: Seq<bool>, capabilities: Seq<Seq<char>>) -> bool {
        match self.when {
            None => true,
            Some(PredicateView::Test { id }) => id < tests.len() && tests[id as int],
            Some(PredicateView::Serves { extractor, capabilities: offered }) => extractor
                < capabilities.len() && offered.contains(capabilities[extractor as int]),
        }
    }
}

impl Edge {
    /// Whether the edge is followed after a response with these answers.
    pub fn fires(&self, answers: &Answers) -> (r: bool)
        ensures
            r == self@.fires(answers.tests@, text::strs(answers.capabilities@)),
    {
        match &self.when {
            None => true,
            Some(EdgePredicate::Test { id }) => *id < answers.tests.len() && answers.tests[*id],
            Some(EdgePredicate::Serves { extractor, capabilities }) => *extractor
                < answers.capabilities.len() && text::contains(
                capabilities,
                answers.capabilities[*extractor].as_str(),
            ),
        }
    }
}

/// A checked graph of agents.
#[derive(Debug, PartialEq, Eq)]
pub struct Workflow {
    pub entries: Vec<String>,
    /// All edges in declaration order.
    pub edges: Vec<Edge>,
}

/// A `Workflow` as a mathematical value.
#[verifier::ext_equal]
pub struct WorkflowView {
    pub entries: Seq<Seq<char>>,
    pub edges: Seq<EdgeView>,
}

/// The views of a sequence of edges.
pub open spec fn edge_views(s: Seq<Edge>) -> Seq<EdgeView> {
    Seq::new(s.len(), |i: int| s[i]@)
}

/// The views of a sequence of borrowed edges.
pub open spec fn edge_ref_views(s: Seq<&Edge>) -> Seq<EdgeView> {
    Seq::new(s.len(), |i: int| s[i]@)
}

impl View for Workflow {
    type V = WorkflowView;

    open spec fn view(&self) -> WorkflowView {
        WorkflowView { entries: text::strs(self.entries@), edges: edge_views(self.edges@) }
    }
}

impl WorkflowView {
    /// Whether a node is an entry or an end of an edge.
    pub open spec fn names(self, x: Seq<char>) -> bool {
        ||| self.entries.contains(x)
        ||| exists|i: int|
            0 <= i < self.edges.len() && ((#[trigger] self.edges[i]).from == x || self.edges[i].to
                == x)
    }

    /// The edges out of `node`, in declaration order.
    pub open spec fn outgoing(self, node: Seq<char>) -> Seq<EdgeView> {
        self.edges.filter(|e: EdgeView| e.from == node)
    }

    /// The edges into `node`, in declaration order.
    pub open spec fn incoming(self, node: Seq<char>) -> Seq<EdgeView> {
        self.edges.filter(|e: EdgeView| e.to == node)
    }
}

/// Whether some edge leads from `a` to `b`.
pub open spec fn linked(edges: Seq<EdgeView>, a: Seq<char>, b: Seq<char>) -> bool {
    exists|i: int| 0 <= i < edges.len() && (#[trigger] edges[i]).from == a && edges[i].to == b
}

/// Whether `p` goes along edges from each node to the next.
pub open spec fn is_walk(edges: Seq<EdgeView>, p: Seq<Seq<char>>) -> bool {
    forall|i: int, j: int|
        0 <= i && j == i + 1 && j < p.len() ==> linked(edges, #[trigger] p[i], #[trigger] p[j])
}

/// Whether some walk comes back to where it began.
pub open spec fn cyclic(edges: Seq<EdgeView>) -> bool {
    exists|p: Seq<Seq<char>>| #[trigger] is_walk(edges, p) && p.len() >= 2 && p[0] == p.last()
}

/// Whether some walk leads from `a` to `b`. Every node reaches itself.
pub open spec fn reaches(edges: Seq<EdgeView>, a: Seq<char>, b: Seq<char>) -> bool {
    exists|p: Seq<Seq<char>>| #[trigger]
        is_walk(edges, p) && p.len() > 0 && p[0] == a && p.last() == b
}

/// Whether some node that `a` reaches lies on a walk that comes back to it.
pub open spec fn cyclic_from(edges: Seq<EdgeView>, a: Seq<char>) -> bool {
    exists|p: Seq<Seq<char>>| #[trigger]
        is_walk(edges, p) && p.len() >= 2 && p[0] == p.last() && reaches(edges, a, p[0])
}

/// Whether one of the first `n` edges leads from `node` to a node that reaches `x`.
spec fn below(edges: Seq<EdgeView>, node: Seq<char>, n: int, x: Seq<char>) -> bool {
    exists|k: int| 0 <= k < n && (#[trigger] edges[k]).from == node && reaches(edges, edges[k].to, x)
}

/// Whether every edge out of a member of `o` leads to an earlier member.
pub open spec fn settled(edges: Seq<EdgeView>, o: Seq<Seq<char>>) -> bool {
    forall|i: int, k: int|
        0 <= i < o.len() && 0 <= k < edges.len() && (#[trigger] edges[k]).from == #[trigger] o[i]
            ==> o.take(i).contains(edges[k].to)
}

/// Along a walk the position in a settled order falls with every step.
proof fn lemma_descends(edges: Seq<EdgeView>, o: Seq<Seq<char>>, p: Seq<Seq<char>>, a: int, n: int) -> (b: int)
    requires
        settled(edges, o),
        is_walk(edges, p),
        0 <= n < p.len(),
        0 <= a < o.len(),
        o[a] == p[0],
    ensures
        0 <= b < o.len(),
        o[b] == p[n],
        b <= a - n,
    decreases n,
{
    if n == 0 {
        a
    } else {
        let c = lemma_descends(edges, o, p, a, n - 1);
        assert(linked(edges, p[n - 1], p[n]));
        let k = choose|k: int|
            0 <= k < edges.len() && (#[trigger] edges[k]).from == p[n - 1] && edges[k].to == p[n];
        assert(o.take(c).contains(edges[k].to));
        let b = choose|b: int| 0 <= b < o.take(c).len() && o.take(c)[b] == p[n];
        assert(o[b] == p[n]);
        b
    }
}

/// A graph whose sources all stand in a settled order has no cycle.
pub proof fn lemma_settled_acyclic(edges: Seq<EdgeView>, o: Seq<Seq<char>>)
    requires
        settled(edges, o),
        o.no_duplicates(),
        forall|k: int| 0 <= k < edges.len() ==> o.contains((#[trigger] edges[k]).from),
    ensures
        !cyclic(edges),
{
    if cyclic(edges) {
        let p = choose|p: Seq<Seq<char>>| #[trigger]
            is_walk(edges, p) && p.len() >= 2 && p[0] == p.last();
        assert(linked(edges, p[0], p[1]));
        let k = choose|k: int|
            0 <= k < edges.len() && (#[trigger] edges[k]).from == p[0] && edges[k].to == p[1];
        assert(o.contains(p[0]));
        let a = choose|a: int| 0 <= a < o.len() && o[a] == p[0];
        let b = lemma_descends(edges, o, p, a, p.len() - 1);
        assert(o[a] == o[b]);
    }
}

proof fn lemma_reaches_itself(edges: Seq<EdgeView>, a: Seq<char>)
    ensures
        reaches(edges, a, a),
{
    let p = seq![a];
    assert(is_walk(edges, p) && p[0] == a && p.last() == a);
}

/// What the end of an edge reaches, its source reaches too.
proof fn lemma_reaches_on(edges: Seq<EdgeView>, a: Seq<char>, b: Seq<char>, x: Seq<char>)
    requires
        linked(edges, a, b),
        reaches(edges, b, x),
    ensures
        reaches(edges, a, x),
{
    let q = choose|q: Seq<Seq<char>>| #[trigger]
        is_walk(edges, q) && q.len() > 0 && q[0] == b && q.last() == x;
    let p = seq![a] + q;
    assert forall|i: int, j: int| 0 <= i && j == i + 1 && j < p.len() implies linked(
        edges,
        #[trigger] p[i],
        #[trigger] p[j],
    ) by {
        if i > 0 {
            assert(p[i] == q[i - 1] && p[j] == q[j - 1]);
        }
    }
    assert(is_walk(edges, p) && p[0] == a && p.last() == x);
}

/// A node reaches itself and what the ends of its edges reach, and nothing else.
proof fn lemma_reaches_below(edges: Seq<EdgeView>, node: Seq<char>, x: Seq<char>)
    ensures
        reaches(edges, node, x) <==> x == node || below(edges, node, edges.len() as int, x),
{
    lemma_reaches_itself(edges, node);
    if below(edges, node, edges.len() as int, x) {
        let k = choose|k: int|
            0 <= k < edges.len() && (#[trigger] edges[k]).from == node && reaches(edges, edges[k].to, x);
        assert(linked(edges, node, edges[k].to));
        lemma_reaches_on(edges, node, edges[k].to, x);
    }
    if reaches(edges, node, x) && x != node {
        let p = choose|p: Seq<Seq<char>>| #[trigger]
            is_walk(edges, p) && p.len() > 0 && p[0] == node && p.last() == x;
        assert(p.len() > 1);
        assert(linked(edges, p[0], p[1]));
        let k = choose|k: int|
            0 <= k < edges.len() && (#[trigger] edges[k]).from == p[0] && edges[k].to == p[1];
        let q = p.skip(1);
        assert forall|i: int, j: int| 0 <= i && j == i + 1 && j < q.len() implies linked(
            edges,
            #[trigger] q[i],
            #[trigger] q[j],
        ) by {
            assert(q[i] == p[i + 1] && q[j] == p[j + 1]);
        }
        assert(is_walk(edges, q) && q[0] == edges[k].to && q.last() == x);
    }
}

/// A settled order holds what its members reach.
proof fn lemma_settled_closed(edges: Seq<EdgeView>, o: Seq<Seq<char>>, a: Seq<char>, x: Seq<char>)
    requires
        settled(edges, o),
        o.contains(a),
        reaches(edges, a, x),
    ensures
        o.contains(x),
{
    let p = choose|p: Seq<Seq<char>>| #[trigger]
        is_walk(edges, p) && p.len() > 0 && p[0] == a && p.last() == x;
    let i = choose|i: int| 0 <= i < o.len() && o[i] == a;
    let b = lemma_descends(edges, o, p, i, p.len() - 1);
    assert(o[b] == x);
}

/// No member of a settled order reaches a cycle.
proof fn lemma_settled_acyclic_from(edges: Seq<EdgeView>, o: Seq<Seq<char>>, a: Seq<char>)
    requires
        settled(edges, o),
        o.no_duplicates(),
        o.contains(a),
    ensures
        !cyclic_from(edges, a),
{
    if cyclic_from(edges, a) {
        let p = choose|p: Seq<Seq<char>>| #[trigger]
            is_walk(edges, p) && p.len() >= 2 && p[0] == p.last() && reaches(edges, a, p[0]);
        lemma_settled_closed(edges, o, a, p[0]);
        let i = choose|i: int| 0 <= i < o.len() && o[i] == p[0];
        let b = lemma_descends(edges, o, p, i, p.len() - 1);
        assert(o[i] == o[b]);
    }
}

/// A sequence without repetition, all of whose members are in another, is no
/// longer than the other.
pub proof fn lemma_fits(s: Seq<Seq<char>>, u: Seq<Seq<char>>)
    requires
        s.no_duplicates(),
        forall|i: int| 0 <= i < s.len() ==> u.contains(#[trigger] s[i]),
    ensures
        s.len() <= u.len(),
{
    s.unique_seq_to_set();
    u.lemma_cardinality_of_set();
    vstd::seq_lib::seq_to_set_is_finite(u);
    assert forall|x: Seq<char>| s.to_set().contains(x) implies u.to_set().contains(x) by {
        let i = choose|i: int| 0 <= i < s.len() && s[i] == x;
        assert(u.contains(s[i]));
    }
    vstd::set_lib::lemma_len_subset(s.to_set(), u.to_set());
}

/// Search on from `node`, below the walk `stack`, over nodes that are not `done`
/// yet; true when a walk from there comes back to itself. Without one, all that
/// `node` reaches is done.
fn dfs(
    node: &str,
    edges: &Vec<Edge>,
    names: &Vec<String>,
    done: &mut Vec<String>,
    stack: &mut Vec<String>,
) -> (r: bool)
    requires
        settled(edge_views(edges@), text::strs(old(done)@)),
        is_walk(edge_views(edges@), text::strs(old(stack)@).push(node@)),
        (text::strs(old(done)@) + text::strs(old(stack)@)).no_duplicates(),
        !(text::strs(old(done)@) + text::strs(old(stack)@)).contains(node@),
        forall|x: Seq<char>| (text::strs(old(done)@) + text::strs(old(stack)@)).contains(x)
            ==> text::strs(names@).contains(x),
        text::strs(names@).contains(node@),
        forall|k: int| 0 <= k < edges@.len() ==> text::strs(names@).contains((#[trigger] edges@[k]).to@),
    ensures
        r <==> cyclic_from(edge_views(edges@), node@),
        !r ==> text::strs(final(stack)@) == text::strs(old(stack)@),
        !r ==> settled(edge_views(edges@), text::strs(final(done)@)),
        !r ==> text::strs(old(done)@).push(node@).len() <= text::strs(final(done)@).len(),
        !r ==> forall|x: Seq<char>| #[trigger]
            text::strs(final(done)@).contains(x) <==> text::strs(old(done)@).contains(x) || reaches(
                edge_views(edges@),
                node@,
                x,
            ),
        !r ==> (text::strs(final(done)@) + text::strs(final(stack)@)).no_duplicates(),
        !r ==> forall|x: Seq<char>| (text::strs(final(done)@) + text::strs(final(stack)@)).contains(x)
            ==> text::strs(names@).contains(x),
    decreases names@.len() - old(done)@.len() - old(stack)@.len(),
{
    let ghost es = edge_views(edges@);
    let ghost us = text::strs(names@);
    let ghost d0 = text::strs(done@);
    let ghost s0 = text::strs(stack@);
    stack.push(node.to_string());
    let ghost s1 = s0.push(node@);
    proof {
        assert(text::strs(stack@) =~= s1);
        assert((d0 + s1) =~= (d0 + s0).push(node@));
        lemma_push_distinct(d0 + s0, node@);
    }
    let mut i: usize = 0;
    while i < edges.len()
        invariant
            i <= edges@.len(),
            es == edge_views(edges@),
            us == text::strs(names@),
            text::strs(stack@) == s1,
            s1 == s0.push(node@),
            is_walk(es, s1),
            settled(es, text::strs(done@)),
            (text::strs(done@) + s1).no_duplicates(),
            forall|x: Seq<char>| (text::strs(done@) + s1).contains(x) ==> us.contains(x),
            forall|k: int| 0 <= k < edges@.len() ==> us.contains((#[trigger] edges@[k]).to@),
            d0.len() <= done@.len(),
            s1.len() == old(stack)@.len() + 1,
            d0.len() == old(done)@.len(),
            forall|x: Seq<char>| #[trigger]
                text::strs(done@).contains(x) <==> d0.contains(x) || below(es, node@, i as int, x),
        decreases edges@.len() - i,
    {
        assert(es[i as int] == edges@[i as int]@);
        let ghost before = text::strs(done@);
        if text::same(edges[i].from.as_str(), node) {
            let to = edges[i].to.as_str();
            assert(linked(es, node@, to@));
            if text::contains(stack, to) {
                proof {
                    lemma_closes(es, s1, to@);
                }
                return true;
            }
            if !text::contains(done, to) {
                let ghost d1 = text::strs(done@);
                proof {
                    lemma_either(d1, s1, to@);
                    lemma_walk_on(es, s1, to@);
                    assert((d1 + s1).push(to@).no_duplicates()) by {
                        lemma_push_distinct(d1 + s1, to@);
                    }
                    lemma_fits((d1 + s1).push(to@), us);
                }
                if dfs(to, edges, names, done, stack) {
                    proof {
                        lemma_cyclic_above(es, node@, to@);
                    }
                    return true;
                }
            }
        }
        proof {
            lemma_one_more(es, node@, i as int, d0, before, text::strs(done@));
        }
        i += 1;
    }
    let ghost d1 = text::strs(done@);
    let ghost full = stack@;
    stack.pop();
    done.push(node.to_string());
    proof {
        assert(text::strs(full).len() == s1.len());
        assert forall|a: int| 0 <= a < s0.len() implies text::strs(stack@)[a] == s0[a] by {
            assert(text::strs(full)[a] == s1[a]);
        }
        assert(text::strs(stack@) =~= s0);
        assert(text::strs(done@) =~= d1.push(node@));
        lemma_moved(d1, s0, node@);
        assert forall|k: int| 0 <= k < es.len() && (#[trigger] es[k]).from == node@ implies d1.contains(es[k].to) by {
            lemma_reaches_itself(es, es[k].to);
            assert(below(es, node@, es.len() as int, es[k].to));
        }
        lemma_settles(es, d1, node@);
        assert(text::strs(done@)[d1.len() as int] == node@);
        assert forall|x: Seq<char>| #[trigger] text::strs(done@).contains(x) <==> d0.contains(x) || reaches(es, node@, x) by {
            lemma_reaches_below(es, node@, x);
            assert(d1.contains(x) <==> d0.contains(x) || below(es, node@, es.len() as int, x));
            if d1.contains(x) {
                let a = choose|a: int| 0 <= a < d1.len() && d1[a] == x;
                assert(text::strs(done@)[a] == x);
            }
            if text::strs(done@).contains(x) && x != node@ {
                let a = choose|a: int| 0 <= a < text::strs(done@).len() && text::strs(done@)[a] == x;
                assert(d1[a] == x);
            }
        }
        lemma_part_distinct(text::strs(done@), s0);
        lemma_settled_acyclic_from(es, text::strs(done@), node@);
    }
    false
}

/// The done nodes after edge number `i` of `node` has been seen.
proof fn lemma_one_more(
    es: Seq<EdgeView>,
    node: Seq<char>,
    i: int,
    d0: Seq<Seq<char>>,
    before: Seq<Seq<char>>,
    after: Seq<Seq<char>>,
)
    requires
        0 <= i < es.len(),
        settled(es, before),
        forall|x: Seq<char>| #[trigger] before.contains(x) <==> d0.contains(x) || below(es, node, i, x),
        es[i].from != node ==> after == before,
        es[i].from == node && before.contains(es[i].to) ==> after == before,
        es[i].from == node && !before.contains(es[i].to) ==> forall|x: Seq<char>| #[trigger]
            after.contains(x) <==> before.contains(x) || reaches(es, es[i].to, x),
    ensures
        forall|x: Seq<char>| #[trigger] after.contains(x) <==> d0.contains(x) || below(es, node, i + 1, x),
{
    assert forall|x: Seq<char>| #[trigger] after.contains(x) <==> d0.contains(x) || below(es, node, i + 1, x) by {
        assert(before.contains(x) <==> d0.contains(x) || below(es, node, i, x));
        if below(es, node, i, x) {
            let k = choose|k: int| 0 <= k < i && (#[trigger] es[k]).from == node && reaches(es, es[k].to, x);
            assert(0 <= k < i + 1 && es[k].from == node);
        }
        if below(es, node, i + 1, x) {
            let k = choose|k: int|
                0 <= k < i + 1 && (#[trigger] es[k]).from == node && reaches(es, es[k].to, x);
            if k < i {
                assert(below(es, node, i, x));
            } else if before.contains(es[i].to) {
                lemma_settled_closed(es, before, es[i].to, x);
            }
        }
        if es[i].from == node && reaches(es, es[i].to, x) {
            assert(0 <= i < i + 1);
            assert(below(es, node, i + 1, x));
        }
    }
}

/// A cycle below the end of an edge lies below its source.
proof fn lemma_cyclic_above(es: Seq<EdgeView>, node: Seq<char>, to: Seq<char>)
    requires
        linked(es, node, to),
        cyclic_from(es, to),
    ensures
        cyclic_from(es, node),
{
    let p = choose|p: Seq<Seq<char>>| #[trigger]
        is_walk(es, p) && p.len() >= 2 && p[0] == p.last() && reaches(es, to, p[0]);
    lemma_reaches_on(es, node, to, p[0]);
}

proof fn lemma_part_distinct(a: Seq<Seq<char>>, b: Seq<Seq<char>>)
    requires
        (a + b).no_duplicates(),
    ensures
        a.no_duplicates(),
{
    assert forall|i: int, j: int| 0 <= i < a.len() && 0 <= j < a.len() && i != j implies a[i] != a[j] by {
        assert((a + b)[i] == a[i] && (a + b)[j] == a[j]);
    }
}

proof fn lemma_push_distinct(s: Seq<Seq<char>>, x: Seq<char>)
    requires
        s.no_duplicates(),
        !s.contains(x),
    ensures
        s.push(x).no_duplicates(),
        forall|y: Seq<char>| s.push(x).contains(y) ==> s.contains(y) || y == x,
{
    assert forall|y: Seq<char>| s.push(x).contains(y) implies s.contains(y) || y == x by {
        let a = choose|a: int| 0 <= a < s.push(x).len() && s.push(x)[a] == y;
        if a < s.len() {
            assert(s[a] == y);
        }
    }
}

proof fn lemma_either(a: Seq<Seq<char>>, b: Seq<Seq<char>>, x: Seq<char>)
    ensures
        (a + b).contains(x) <==> a.contains(x) || b.contains(x),
{
    if (a + b).contains(x) {
        let i = choose|i: int| 0 <= i < (a + b).len() && (a + b)[i] == x;
        if i < a.len() {
            assert(a[i] == x);
        } else {
            assert(b[i - a.len()] == x);
        }
    }
    if a.contains(x) {
        let i = choose|i: int| 0 <= i < a.len() && a[i] == x;
        assert((a + b)[i] == x);
    }
    if b.contains(x) {
        let i = choose|i: int| 0 <= i < b.len() && b[i] == x;
        assert((a + b)[i + a.len()] == x);
    }
}

proof fn lemma_walk_on(es: Seq<EdgeView>, s: Seq<Seq<char>>, to: Seq<char>)
    requires
        is_walk(es, s),
        s.len() > 0,
        linked(es, s.last(), to),
    ensures
        is_walk(es, s.push(to)),
{
    let p = s.push(to);
    assert forall|i: int, j: int| 0 <= i && j == i + 1 && j < p.len() implies linked(
        es,
        #[trigger] p[i],
        #[trigger] p[j],
    ) by {
        if j < s.len() {
            assert(p[i] == s[i] && p[j] == s[j]);
        }
    }
}

proof fn lemma_closes(es: Seq<EdgeView>, s: Seq<Seq<char>>, to: Seq<char>)
    requires
        is_walk(es, s),
        s.len() > 0,
        linked(es, s.last(), to),
        s.contains(to),
    ensures
        cyclic(es),
        cyclic_from(es, s.last()),
{
    let a = choose|a: int| 0 <= a < s.len() && s[a] == to;
    let t = s.skip(a);
    assert forall|i: int, j: int| 0 <= i && j == i + 1 && j < t.len() implies linked(
        es,
        #[trigger] t[i],
        #[trigger] t[j],
    ) by {
        assert(t[i] == s[i + a] && t[j] == s[j + a]);
    }
    lemma_walk_on(es, t, to);
    let p = t.push(to);
    assert(p[0] == to && p.last() == to);
    lemma_reaches_itself(es, to);
    lemma_reaches_on(es, s.last(), to, to);
}

proof fn lemma_moved(d: Seq<Seq<char>>, s: Seq<Seq<char>>, x: Seq<char>)
    requires
        (d + s.push(x)).no_duplicates(),
    ensures
        (d.push(x) + s).no_duplicates(),
        forall|y: Seq<char>| (d.push(x) + s).contains(y) <==> (d + s.push(x)).contains(y),
{
    let a = d + s.push(x);
    let b = d.push(x) + s;
    assert forall|i: int, j: int| 0 <= i < b.len() && 0 <= j < b.len() && i != j implies b[i] != b[j] by {
        let f = |i: int| if i < d.len() {
            i
        } else if i == d.len() {
            a.len() - 1
        } else {
            i - 1
        };
        assert(b[i] == a[f(i)] && b[j] == a[f(j)]);
    }
    assert forall|y: Seq<char>| b.contains(y) <==> a.contains(y) by {
        lemma_either(d, s.push(x), y);
        lemma_either(d.push(x), s, y);
        if s.push(x).contains(y) {
            let i = choose|i: int| 0 <= i < s.push(x).len() && s.push(x)[i] == y;
            if i < s.len() {
                assert(s[i] == y);
            } else {
                assert(d.push(x)[d.len() as int] == y);
            }
        }
        if d.push(x).contains(y) {
            let i = choose|i: int| 0 <= i < d.push(x).len() && d.push(x)[i] == y;
            if i < d.len() {
                assert(d[i] == y);
            } else {
                assert(s.push(x)[s.len() as int] == y);
            }
        }
        if d.contains(y) {
            let i = choose|i: int| 0 <= i < d.len() && d[i] == y;
            assert(d.push(x)[i] == y);
        }
        if s.contains(y) {
            let i = choose|i: int| 0 <= i < s.len() && s[i] == y;
            assert(s.push(x)[i] == y);
        }
    }
}

proof fn lemma_settles(es: Seq<EdgeView>, d: Seq<Seq<char>>, x: Seq<char>)
    requires
        settled(es, d),
        forall|k: int| 0 <= k < es.len() && (#[trigger] es[k]).from == x ==> d.contains(es[k].to),
    ensures
        settled(es, d.push(x)),
{
    let o = d.push(x);
    assert forall|i: int, k: int|
        0 <= i < o.len() && 0 <= k < es.len() && (#[trigger] es[k]).from == #[trigger] o[i] implies o.take(
        i,
    ).contains(es[k].to) by {
        if i < d.len() {
            assert(o[i] == d[i]);
            assert(o.take(i) =~= d.take(i));
        } else {
            assert(o.take(i) =~= d);
        }
    }
}

/// Whether the graph has a cycle: an error if it has one.
fn detect_cycle(names: &Vec<String>, edges: &Vec<Edge>) -> (r: Result<(), AetherError>)
    requires
        forall|k: int|
            0 <= k < edges@.len() ==> text::strs(names@).contains((#[trigger] edges@[k]).from@)
                && text::strs(names@).contains(edges@[k].to@),
    ensures
        r is Ok <==> !cyclic(edge_views(edges@)),
        r matches Err(e) ==> e@ == cycle_error(),
{
    let ghost es = edge_views(edges@);
    let ghost us = text::strs(names@);
    let mut done: Vec<String> = Vec::new();
    let mut stack: Vec<String> = Vec::new();
    let mut i: usize = 0;
    assert(text::strs(done@) =~= Seq::empty());
    assert(text::strs(stack@) =~= Seq::empty());
    while i < names.len()
        invariant
            i <= names@.len(),
            es == edge_views(edges@),
            us == text::strs(names@),
            text::strs(stack@) == Seq::<Seq<char>>::empty(),
            settled(es, text::strs(done@)),
            text::strs(done@).no_duplicates(),
            forall|x: Seq<char>| text::strs(done@).contains(x) ==> us.contains(x),
            forall|k: int|
                0 <= k < edges@.len() ==> us.contains((#[trigger] edges@[k]).from@) && us.contains(
                    edges@[k].to@,
                ),
            forall|k: int| 0 <= k < i ==> text::strs(done@).contains(#[trigger] us[k]),
        decreases names@.len() - i,
    {
        assert(us[i as int] == names@[i as int]@);
        if !text::contains(&done, names[i].as_str()) {
            assert(text::strs(done@) + text::strs(stack@) =~= text::strs(done@));
            let ghost before = text::strs(done@);
            proof {
                lemma_reaches_itself(es, us[i as int]);
            }
            if dfs(names[i].as_str(), edges, names, &mut done, &mut stack) {
                return Err(
                    AetherError::WorkflowError {
                        message: "workflow graph contains a cycle".to_string(),
                    },
                );
            }
            assert(text::strs(done@) + text::strs(stack@) =~= text::strs(done@));
            assert forall|k: int| 0 <= k <= i implies text::strs(done@).contains(#[trigger] us[k]) by {
                assert(k < i ==> before.contains(us[k]));
            }
        }
        i += 1;
    }
    proof {
        let o = text::strs(done@);
        assert forall|k: int| 0 <= k < es.len() implies o.contains((#[trigger] es[k]).from) by {
            assert(es[k] == edges@[k]@);
            assert(us.contains(edges@[k].from@));
            let j = choose|j: int| 0 <= j < us.len() && us[j] == edges@[k].from@;
            assert(o.contains(us[j]));
        }
        lemma_settled_acyclic(es, o);
    }
    Ok(())
}

/// The error for a graph with a cycle.
pub open spec fn cycle_error() -> ErrorView {
    ErrorView::WorkflowError { message: "workflow graph contains a cycle"@ }
}

/// The error for a node that no agent answers to.
pub open spec fn unknown_node_error(name: Seq<char>) -> ErrorView {
    ErrorView::RegistryError { message: "unknown node '"@ + name + "' referenced in workflow"@ }
}

/// Put `s` into `v` unless it is there.
fn add_name(v: &mut Vec<String>, s: &str)
    requires
        text::strs(old(v)@).no_duplicates(),
    ensures
        text::strs(final(v)@).no_duplicates(),
        forall|x: Seq<char>| #[trigger]
            text::strs(final(v)@).contains(x) <==> text::strs(old(v)@).contains(x) || x == s@,
{
    let ghost before = text::strs(v@);
    if !text::contains(v, s) {
        v.push(s.to_string());
        proof {
            assert(text::strs(v@) =~= before.push(s@));
            lemma_push_distinct(before, s@);
            assert(before.push(s@)[before.len() as int] == s@);
            assert forall|x: Seq<char>| before.contains(x) implies before.push(s@).contains(x) by {
                let a = choose|a: int| 0 <= a < before.len() && before[a] == x;
                assert(before.push(s@)[a] == x);
            }
        }
    }
}

/// The names that entries and edges mention, each once.
fn mentioned(entries: &Vec<String>, edges: &Vec<Edge>) -> (r: Vec<String>)
    ensures
        text::strs(r@).no_duplicates(),
        forall|x: Seq<char>| #[trigger]
            text::strs(r@).contains(x) <==> (WorkflowView {
                entries: text::strs(entries@),
                edges: edge_views(edges@),
            }).names(x),
{
    let ghost ns = text::strs(entries@);
    let ghost es = edge_views(edges@);
    let mut out: Vec<String> = Vec::new();
    let mut i: usize = 0;
    while i < entries.len()
        invariant
            i <= entries@.len(),
            ns == text::strs(entries@),
            text::strs(out@).no_duplicates(),
            forall|x: Seq<char>| #[trigger]
                text::strs(out@).contains(x) <==> ns.take(i as int).contains(x),
        decreases entries@.len() - i,
    {
        proof {
            text::lemma_take_more(ns, i + 1);
        }
        add_name(&mut out, entries[i].as_str());
        i += 1;
    }
    assert(ns.take(ns.len() as int) =~= ns);
    let mut k: usize = 0;
    while k < edges.len()
        invariant
            k <= edges@.len(),
            es == edge_views(edges@),
            text::strs(out@).no_duplicates(),
            forall|x: Seq<char>| #[trigger]
                text::strs(out@).contains(x) <==> ns.contains(x) || exists|j: int|
                    0 <= j < k && ((#[trigger] es[j]).from == x || es[j].to == x),
        decreases edges@.len() - k,
    {
        assert(es[k as int] == edges@[k as int]@);
        let ghost before = text::strs(out@);
        add_name(&mut out, edges[k].from.as_str());
        add_name(&mut out, edges[k].to.as_str());
        k += 1;
        proof {
            assert forall|x: Seq<char>| #[trigger] text::strs(out@).contains(x) <==> ns.contains(x) || exists|j: int|
                0 <= j < k && ((#[trigger] es[j]).from == x || es[j].to == x) by {
                assert(before.contains(x) <==> ns.contains(x) || exists|j: int|
                    0 <= j < k - 1 && ((#[trigger] es[j]).from == x || es[j].to == x));
                if es[k - 1].from == x || es[k - 1].to == x {
                    assert(0 <= k - 1 < k);
                }
            }
        }
    }
    out
}

impl Workflow {
    /// Begin a workflow over the agents of `registry`.
    pub fn builder(registry: &AgentRegistry) -> (r: WorkflowBuilder<'_>)
        ensures
            r.plan() == (WorkflowView { entries: Seq::empty(), edges: Seq::empty() }),
            r.known() == registry@.dom(),
            r.offered() == registry::agents(registry@),
            !r.entry_was_auto(),
    {
        let r = WorkflowBuilder { registry, entries: Vec::new(), auto: false, edges: Vec::new() };
        assert(r.plan() =~= WorkflowView { entries: Seq::empty(), edges: Seq::empty() });
        r
    }

    /// Outgoing edges from `node`, in declaration order.
    pub fn outgoing(&self, node: &str) -> (r: Vec<&Edge>)
        ensures
            edge_ref_views(r@) == self@.outgoing(node@),
    {
        let ghost es = self@.edges;
        let ghost p = |e: EdgeView| e.from == node@;
        let mut out: Vec<&Edge> = Vec::new();
        let mut i: usize = 0;
        assert(edge_ref_views(out@) =~= es.take(0).filter(p));
        while i < self.edges.len()
            invariant
                i <= self.edges@.len(),
                es == edge_views(self.edges@),
                p == (|e: EdgeView| e.from == node@),
                edge_ref_views(out@) == es.take(i as int).filter(p),
            decreases self.edges@.len() - i,
        {
            proof {
                assert(es[i as int] == self.edges@[i as int]@);
                text::lemma_filter_more(es, p, i + 1);
            }
            if text::same(self.edges[i].from.as_str(), node) {
                let ghost prior = edge_ref_views(out@);
                out.push(&self.edges[i]);
                assert(edge_ref_views(out@) =~= prior.push(es[i as int]));
            }
            i += 1;
        }
        assert(es.take(es.len() as int) =~= es);
        out
    }

    /// Incoming edges to `node`, in declaration order.
    pub fn incoming(&self, node: &str) -> (r: Vec<&Edge>)
        ensures
            edge_ref_views(r@) == self@.incoming(node@),
    {
        let ghost es = self@.edges;
        let ghost p = |e: EdgeView| e.to == node@;
        let mut out: Vec<&Edge> = Vec::new();
        let mut i: usize = 0;
        assert(edge_ref_views(out@) =~= es.take(0).filter(p));
        while i < self.edges.len()
            invariant
                i <= self.edges@.len(),
                es == edge_views(self.edges@),
                p == (|e: EdgeView| e.to == node@),
                edge_ref_views(out@) == es.take(i as int).filter(p),
            decreases self.edges@.len() - i,
        {
            proof {
                assert(es[i as int] == self.edges@[i as int]@);
                text::lemma_filter_more(es, p, i + 1);
            }
            if text::same(self.edges[i].to.as_str(), node) {
                let ghost prior = edge_ref_views(out@);
                out.push(&self.edges[i]);
                assert(edge_ref_views(out@) =~= prior.push(es[i as int]));
            }
            i += 1;
        }
        assert(es.take(es.len() as int) =~= es);
        out
    }

    /// All node names that the workflow mentions, each once.
    pub fn all_nodes(&self) -> (r: Vec<String>)
        ensures
            text::strs(r@).no_duplicates(),
            forall|x: Seq<char>| #[trigger] text::strs(r@).contains(x) <==> self@.names(x),
    {
        mentioned(&self.entries, &self.edges)
    }
}

/// A workflow in the making.
pub struct WorkflowBuilder<'a> {
    registry: &'a AgentRegistry,
    entries: Vec<String>,
    /// Whether the entry was taken from an edge.
    auto: bool,
    edges: Vec<Edge>,
}

impl<'a> WorkflowBuilder<'a> {
    /// The workflow so far.
    pub closed spec fn plan(self) -> WorkflowView {
        WorkflowView { entries: text::strs(self.entries@), edges: edge_views(self.edges@) }
    }

    /// Whether the entry was taken from the first edge, for want of a named one.
    pub closed spec fn entry_was_auto(self) -> bool {
        self.auto
    }

    /// The names that agents answer to.
    pub closed spec fn known(self) -> Set<Seq<char>> {
        self.registry@.dom()
    }

    /// The agents, in the order of their names.
    pub closed spec fn offered(self) -> Seq<AgentNodeView> {
        registry::agents(self.registry@)
    }

    /// Name an entry node. A workflow may have several, each once; an edge makes its
    /// source the entry only while there is none, and the first entry that is named
    /// takes the place of such a one.
    pub fn entry(self, node: &str) -> (r: Self)
        ensures
            r.plan() == with_entry(self.plan(), self.entry_was_auto(), node@),
            r.known() == self.known(),
            r.offered() == self.offered(),
            !r.entry_was_auto(),
    {
        let mut b = self;
        if b.auto {
            b.entries = Vec::new();
            b.auto = false;
        }
        if !text::contains(&b.entries, node) {
            b.entries.push(node.to_string());
        }
        assert(text::strs(b.entries@) =~= with_entry(self.plan(), self.entry_was_auto(), node@).entries);
        b
    }

    /// Add an edge that is always followed.
    pub fn edge(self, from: &str, to: &str) -> (r: Self)
        ensures
            r.plan() == with_edge(self.plan(), EdgeView { from: from@, to: to@, when: None }),
            r.known() == self.known(),
            r.offered() == self.offered(),
            r.entry_was_auto() == (self.entry_was_auto() || self.plan().entries.len() == 0),
    {
        self.with(from, to, None)
    }

    /// Add an edge that is followed when the test with this number says yes.
    pub fn conditional(self, from: &str, to: &str, predicate: usize) -> (r: Self)
        ensures
            r.plan() == with_edge(
                self.plan(),
                EdgeView {
                    from: from@,
                    to: to@,
                    when: Some(PredicateView::Test { id: predicate }),
                },
            ),
            r.known() == self.known(),
            r.offered() == self.offered(),
            r.entry_was_auto() == (self.entry_was_auto() || self.plan().entries.len() == 0),
    {
        self.with(from, to, Some(EdgePredicate::Test { id: predicate }))
    }

    fn with(self, from: &str, to: &str, when: Option<EdgePredicate>) -> (r: Self)
        ensures
            r.plan() == with_edge(
                self.plan(),
                EdgeView { from: from@, to: to@, when: condition(when) },
            ),
            r.known() == self.known(),
            r.offered() == self.offered(),
            r.entry_was_auto() == (self.entry_was_auto() || self.plan().entries.len() == 0),
    {
        let ghost plan = self.plan();
        let ghost e = EdgeView { from: from@, to: to@, when: condition(when) };
        let mut b = self;
        if b.entries.len() == 0 {
            b.entries.push(from.to_string());
            b.auto = true;
        }
        b.edges.push(Edge { from: from.to_string(), to: to.to_string(), when });
        proof {
            assert(edge_views(b.edges@) =~= plan.edges.push(e));
            assert(text::strs(b.entries@) =~= with_edge(plan, e).entries);
        }
        b
    }

    /// Add an edge from `router_node` to every agent, followed when the agent
    /// offers the capability that the extractor with this number reads in the
    /// response. A router that is registered is one of the agents.
    pub fn capability_router(self, router_node: &str, extractor: usize) -> (r: Self)
        ensures
            r.plan() == with_routes(self.plan(), router_node@, extractor, self.offered(), self.offered().len()),
            r.known() == self.known(),
            r.offered() == self.offered(),
            r.entry_was_auto() == (self.entry_was_auto() || self.plan().entries.len() == 0
                && self.offered().len() > 0),
            self.known().finite(),
            forall|i: int|
                0 <= i < self.offered().len() ==> self.known().contains((#[trigger] self.offered()[i]).name),
    {
        let all = self.registry.list();
        let ghost plan = self.plan();
        let ghost auto = self.entry_was_auto();
        let ghost offered = self.offered();
        let ghost known = self.known();
        let mut b = self;
        let mut i: usize = 0;
        while i < all.len()
            invariant
                i <= all@.len(),
                registry::node_views(all@) == offered,
                b.known() == known,
                b.offered() == offered,
                b.plan() == with_routes(plan, router_node@, extractor, offered, i as nat),
                b.entry_was_auto() == (auto || plan.entries.len() == 0 && i > 0),
                i > 0 || plan.entries.len() > 0 ==> b.plan().entries.len() > 0,
            decreases all@.len() - i,
        {
            assert(registry::node_views(all@)[i as int] == all@[i as int]@);
            let capabilities = copy_texts(&all[i].capabilities);
            b = b.with(
                router_node,
                all[i].name.as_str(),
                Some(EdgePredicate::Serves { extractor, capabilities }),
            );
            i += 1;
        }
        b
    }

    /// Check the names against the agents and the graph for cycles.
    pub fn build(self) -> (r: Result<Workflow, AetherError>)
        ensures
            match r {
                Ok(w) => {
                    &&& w@ == self.plan()
                    &&& self.plan().entries.len() > 0
                    &&& forall|x: Seq<char>| #[trigger] self.plan().names(x) ==> self.known().contains(x)
                    &&& !cyclic(self.plan().edges)
                },
                Err(e) => {
                    ||| self.plan().entries.len() == 0 && e@ == no_edges_error()
                    ||| self.plan().entries.len() > 0 && exists|x: Seq<char>| #[trigger]
                        self.plan().names(x) && !self.known().contains(x) && e@ == unknown_node_error(x)
                    ||| self.plan().entries.len() > 0 && (forall|x: Seq<char>| #[trigger]
                        self.plan().names(x) ==> self.known().contains(x)) && cyclic(self.plan().edges)
                        && e@ == cycle_error()
                },
            },
    {
        if self.entries.len() == 0 {
            return Err(AetherError::WorkflowError { message: "workflow has no edges".to_string() });
        }
        let names = mentioned(&self.entries, &self.edges);
        let mut i: usize = 0;
        while i < names.len()
            invariant
                i <= names@.len(),
                forall|x: Seq<char>| #[trigger] text::strs(names@).contains(x) <==> self.plan().names(x),
                self.plan().entries.len() > 0,
                forall|k: int| 0 <= k < i ==> self.known().contains(#[trigger] text::strs(names@)[k]),
            decreases names@.len() - i,
        {
            if self.registry.get(names[i].as_str()).is_none() {
                let mut message = text::cat("unknown node '", names[i].as_str());
                message.append("' referenced in workflow");
                assert(text::strs(names@)[i as int] == names@[i as int]@);
                assert(text::strs(names@).contains(names@[i as int]@));
                return Err(AetherError::RegistryError { message });
            }
            i += 1;
        }
        proof {
            assert forall|x: Seq<char>| #[trigger] self.plan().names(x) implies self.known().contains(x) by {
                assert(text::strs(names@).contains(x));
                let k = choose|k: int| 0 <= k < text::strs(names@).len() && text::strs(names@)[k] == x;
                assert(self.known().contains(text::strs(names@)[k]));
            }
            assert forall|k: int| 0 <= k < self.edges@.len() implies text::strs(names@).contains(
                (#[trigger] self.edges@[k]).from@,
            ) && text::strs(names@).contains(self.edges@[k].to@) by {
                assert(self.plan().edges[k] == self.edges@[k]@);
                assert(self.plan().names(self.edges@[k].from@));
                assert(self.plan().names(self.edges@[k].to@));
            }
        }
        match detect_cycle(&names, &self.edges) {
            Err(e) => Err(e),
            Ok(()) => Ok(Workflow { entries: self.entries, edges: self.edges }),
        }
    }
}

/// The error for a workflow that has no entry.
pub open spec fn no_edges_error() -> ErrorView {
    ErrorView::WorkflowError { message: "workflow has no edges"@ }
}

/// A workflow with a named entry. `auto` tells that the entry so far was taken from
/// an edge.
pub open spec fn with_entry(w: WorkflowView, auto: bool, node: Seq<char>) -> WorkflowView {
    WorkflowView {
        entries: if auto {
            seq![node]
        } else if w.entries.contains(node) {
            w.entries
        } else {
            w.entries.push(node)
        },
        edges: w.edges,
    }
}

/// A workflow with one more edge.
pub open spec fn with_edge(w: WorkflowView, e: EdgeView) -> WorkflowView {
    WorkflowView {
        entries: if w.entries.len() == 0 {
            seq![e.from]
        } else {
            w.entries
        },
        edges: w.edges.push(e),
    }
}

/// A workflow with edges from a router to the first `n` of `agents`.
pub open spec fn with_routes(
    w: WorkflowView,
    router: Seq<char>,
    extractor: usize,
    agents: Seq<AgentNodeView>,
    n: nat,
) -> WorkflowView
    decreases n,
{
    if n == 0 {
        w
    } else {
        with_edge(
            with_routes(w, router, extractor, agents, (n - 1) as nat),
            EdgeView {
                from: router,
                to: agents[n - 1].name,
                when: Some(
                    PredicateView::Serves { extractor, capabilities: agents[n - 1].capabilities },
                ),
            },
        )
    }
}

/// A call on a builder. A router is an edge to each agent, in the order of their names.
pub enum BuildCall {
    Entry { node: Seq<char> },
    Edge { edge: EdgeView },
}

/// What a builder holds after calls: the workflow so far, and whether its entry was
/// taken from an edge.
pub open spec fn after_build_calls(calls: Seq<BuildCall>) -> (WorkflowView, bool)
    decreases calls.len(),
{
    if calls.len() == 0 {
        (WorkflowView { entries: Seq::empty(), edges: Seq::empty() }, false)
    } else {
        let (w, auto) = after_build_calls(calls.drop_last());
        match calls.last() {
            BuildCall::Entry { node } => (with_entry(w, auto, node), false),
            BuildCall::Edge { edge } => (with_edge(w, edge), auto || w.entries.len() == 0),
        }
    }
}

/// The edges that calls add, in their order.
pub open spec fn added_edges(calls: Seq<BuildCall>) -> Seq<EdgeView>
    decreases calls.len(),
{
    if calls.len() == 0 {
        Seq::empty()
    } else {
        match calls.last() {
            BuildCall::Entry { .. } => added_edges(calls.drop_last()),
            BuildCall::Edge { edge } => added_edges(calls.drop_last()).push(edge),
        }
    }
}

/// The entries that calls name, each once, in their order.
pub open spec fn named_entries(calls: Seq<BuildCall>) -> Seq<Seq<char>>
    decreases calls.len(),
{
    if calls.len() == 0 {
        Seq::empty()
    } else {
        let prior = named_entries(calls.drop_last());
        match calls.last() {
            BuildCall::Entry { node } => if prior.contains(node) {
                prior
            } else {
                prior.push(node)
            },
            BuildCall::Edge { .. } => prior,
        }
    }
}

/// Whatever calls are made on a builder, it holds all edges that were added, in the
/// order of the calls, none dropped or merged. Its entries are those that were named,
/// each once; where none was, the source of the first edge; and without edges there
/// is none.
pub proof fn law_builder_keeps_what_it_was_told(calls: Seq<BuildCall>)
    ensures
        ({
            let (w, auto) = after_build_calls(calls);
            &&& w.edges == added_edges(calls)
            &&& named_entries(calls).no_duplicates()
            &&& named_entries(calls).len() > 0 ==> w.entries == named_entries(calls) && !auto
            &&& named_entries(calls).len() == 0 && w.edges.len() > 0 ==> w.entries == seq![w.edges[0].from]
                && auto
            &&& named_entries(calls).len() == 0 && w.edges.len() == 0 ==> w.entries.len() == 0 && !auto
            &&& w.entries.no_duplicates()
        }),
    decreases calls.len(),
{
    if calls.len() > 0 {
        let prior = calls.drop_last();
        law_builder_keeps_what_it_was_told(prior);
        let (u, auto) = after_build_calls(prior);
        let (w, _) = after_build_calls(calls);
        match calls.last() {
            BuildCall::Entry { node } => {
                if named_entries(prior).len() == 0 {
                    assert(named_entries(prior) =~= Seq::empty());
                    assert(named_entries(calls) =~= seq![node]);
                    assert(w.entries =~= seq![node]);
                } else if !named_entries(prior).contains(node) {
                    lemma_push_distinct(named_entries(prior), node);
                }
            },
            BuildCall::Edge { edge } => {
                if named_entries(prior).len() == 0 && u.edges.len() > 0 {
                    assert(w.edges[0] == u.edges[0]);
                }
            },
        }
    }
}

} // verus!

//! The agents that a workflow can name.

use vstd::prelude::*;
use crate::text;
use crate::text_map;
use crate::text_map::TextMap;
use crate::types::{AgentNode, AgentNodeView};

verus! {

/// Agents by name.
#[derive(Debug)]
pub struct AgentRegistry {
    nodes: TextMap<AgentNode>,
}

/// The agents of a registry, in the order of their names.
pub open spec fn agents(m: Map<Seq<char>, AgentNodeView>) -> Seq<AgentNodeView> {
    Seq::new(text_map::sorted_keys(m).len(), |i: int| m[text_map::sorted_keys(m)[i]])
}

/// Whether every agent stands under its own name.
pub open spec fn by_name(m: Map<Seq<char>, AgentNodeView>) -> bool {
    forall|k: Seq<char>| #[trigger] m.dom().contains(k) ==> m[k].name == k
}

/// The views of a sequence of agents.
pub open spec fn node_views(s: Seq<AgentNode>) -> Seq<AgentNodeView> {
    Seq::new(s.len(), |i: int| s[i]@)
}

impl View for AgentRegistry {
    type V = Map<Seq<char>, AgentNodeView>;

    closed spec fn view(&self) -> Map<Seq<char>, AgentNodeView> {
        Map::new(|k: Seq<char>| self.nodes@.dom().contains(k), |k: Seq<char>| self.nodes@[k]@)
    }
}

impl AgentRegistry {
    #[verifier::type_invariant]
    spec fn named(self) -> bool {
        by_name(self@)
    }

    /// A registry without agents.
    pub fn new() -> (r: Self)
        ensures
            r@ == Map::<Seq<char>, AgentNodeView>::empty(),
            by_name(r@),
    {
        let r = AgentRegistry { nodes: TextMap::new() };
        assert(r@ =~= Map::<Seq<char>, AgentNodeView>::empty());
        r
    }

    /// Add an agent, in place of one with the same name.
    pub fn register(&mut self, node: AgentNode)
        ensures
            final(self)@ == old(self)@.insert(node.name@, node@),
            by_name(final(self)@),
    {
        proof {
            use_type_invariant(&*self);
        }
        let ghost before = self@;
        let name = node.name.clone();
        let ghost x = node@;
        let mut nodes: TextMap<AgentNode> = TextMap::new();
        std::mem::swap(&mut nodes, &mut self.nodes);
        nodes.insert(name, node);
        assert((AgentRegistry { nodes })@ =~= before.insert(x.name, x));
        self.nodes = nodes;
    }

    /// The agent with a name.
    pub fn get(&self, name: &str) -> (r: Option<AgentNode>)
        ensures
            match r {
                Some(n) => self@.dom().contains(name@) && n@ == self@[name@] && n@.name == name@,
                None => !self@.dom().contains(name@),
            },
    {
        proof {
            use_type_invariant(self);
        }
        match self.nodes.get(name) {
            Some(n) => Some(n.clone()),
            None => None,
        }
    }

    /// All agents, in the order of their names.
    pub fn list(&self) -> (r: Vec<AgentNode>)
        ensures
            node_views(r@) == agents(self@),
            self@.dom().finite(),
            by_name(self@),
            forall|i: int|
                0 <= i < agents(self@).len() ==> self@.dom().contains((#[trigger] agents(self@)[i]).name),
    {
        let n: usize = self.nodes.len();
        let mut out: Vec<AgentNode> = Vec::new();
        let mut i: usize = 0;
        proof {
            assert(self@.dom() =~= self.nodes@.dom());
            text_map::lemma_ascending_unique(self.nodes.keys(), text_map::sorted_keys(self@));
        }
        while i < n
            invariant
                i <= n,
                n == self.nodes.keys().len(),
                self.nodes.keys() == text_map::sorted_keys(self@),
                out@.len() == i,
                forall|j: int| 0 <= j < i ==> (#[trigger] out@[j])@ == agents(self@)[j],
            decreases n - i,
        {
            let (k, x) = self.nodes.at(i);
            out.push(x.clone());
            i += 1;
        }
        proof {
            use_type_invariant(self);
            assert(node_views(out@) =~= agents(self@));
            let keys = text_map::sorted_keys(self@);
            assert forall|i: int| 0 <= i < agents(self@).len() implies self@.dom().contains(
                (#[trigger] agents(self@)[i]).name,
            ) by {
                assert(keys.to_set().contains(keys[i]));
            }
        }
        out
    }

    /// The agents that offer a capability, in the order of their names.
    pub fn find_capable(&self, capability: &str) -> (r: Vec<AgentNode>)
        ensures
            node_views(r@) == agents(self@).filter(
                |n: AgentNodeView| n.capabilities.contains(capability@),
            ),
            self@.dom().finite(),
            by_name(self@),
    {
        let all = self.list();
        let ghost p = |n: AgentNodeView| n.capabilities.contains(capability@);
        let ghost s = agents(self@);
        let mut out: Vec<AgentNode> = Vec::new();
        let mut i: usize = 0;
        assert(node_views(out@) =~= s.take(0).filter(p));
        while i < all.len()
            invariant
                i <= all@.len(),
                node_views(all@) == s,
                p == (|n: AgentNodeView| n.capabilities.contains(capability@)),
                node_views(out@) == s.take(i as int).filter(p),
            decreases all@.len() - i,
        {
            proof {
                assert(s[i as int] == all@[i as int]@);
                text::lemma_filter_more(s, p, i + 1);
            }
            if text::contains(&all[i].capabilities, capability) {
                let ghost prior = node_views(out@);
                out.push(all[i].clone());
                assert(node_views(out@) =~= prior.push(s[i as int]));
            }
            i += 1;
        }
        assert(s.take(s.len() as int) =~= s);
        out
    }
}

/// Every agent of a registry is listed, under its name, once, in the order of names.
pub proof fn law_every_agent_is_listed(m: Map<Seq<char>, AgentNodeView>, k: Seq<char>)
    requires
        m.dom().finite(),
        by_name(m),
    ensures
        m.dom().contains(k) <==> exists|i: int| 0 <= i < agents(m).len() && (#[trigger] agents(m)[i]).name == k,
        m.dom().contains(k) ==> agents(m).contains(m[k]),
        forall|i: int, j: int|
            0 <= i < j < agents(m).len() ==> text::lex_lt(
                (#[trigger] agents(m)[i]).name,
                (#[trigger] agents(m)[j]).name,
            ),
{
    text_map::lemma_sorted_keys(m);
    let keys = text_map::sorted_keys(m);
    assert forall|i: int| 0 <= i < keys.len() implies m.dom().contains(#[trigger] keys[i]) && agents(m)[i].name
        == keys[i] by {
        assert(keys.to_set().contains(keys[i]));
    }
    if m.dom().contains(k) {
        assert(keys.to_set().contains(k));
        let i = choose|i: int| 0 <= i < keys.len() && keys[i] == k;
        assert(agents(m)[i].name == k);
        assert(agents(m)[i] == m[k]);
    }
    if exists|i: int| 0 <= i < agents(m).len() && (#[trigger] agents(m)[i]).name == k {
        let i = choose|i: int| 0 <= i < agents(m).len() && (#[trigger] agents(m)[i]).name == k;
        assert(m.dom().contains(keys[i]));
    }
    assert forall|i: int, j: int| 0 <= i < j < agents(m).len() implies text::lex_lt(
        (#[trigger] agents(m)[i]).name,
        (#[trigger] agents(m)[j]).name,
    ) by {
        assert(text::lex_lt(keys[i], keys[j]));
    }
}

} // verus!

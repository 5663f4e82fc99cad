//! Planned DAGs: the form in which a planner answers.

use vstd::prelude::*;
use vstd::string::*;
use crate::decode;
use crate::error::{AetherError, ErrorView};
use crate::json;
use crate::json::{Json, JsonView, NumberView};
use crate::supervisor;
use crate::text;
use crate::text_map;
use crate::text_map::TextMap;

verus! {

/// One node of a planned DAG.
#[derive(Debug, PartialEq, Eq)]
pub struct DagNode {
    /// Unique within the DAG; referenced by `depends_on`.
    pub id: String,
    /// Capability to resolve against the registry. Required unless `agent` is set.
    pub capability: Option<String>,
    /// Pin to a registered agent by name, in place of a capability.
    pub agent: Option<String>,
    /// Ids of upstream nodes. None of them makes an entry node.
    pub depends_on: Vec<String>,
    /// Directive for the worker, carried to it with its task.
    pub instruction: Option<String>,
    /// Flat labels for arbitrary configuration.
    pub metadata: TextMap<String>,
    /// Default gate deadline of the node, in seconds.
    pub gate_deadline_secs: Option<u64>,
}

/// A `DagNode` as a mathematical value.
#[verifier::ext_equal]
pub struct DagNodeView {
    pub id: Seq<char>,
    pub capability: Option<Seq<char>>,
    pub agent: Option<Seq<char>>,
    pub depends_on: Seq<Seq<char>>,
    pub instruction: Option<Seq<char>>,
    pub metadata: Map<Seq<char>, Seq<char>>,
    pub gate_deadline_secs: Option<u64>,
}

impl View for DagNode {
    type V = DagNodeView;

    open spec fn view(&self) -> DagNodeView {
        DagNodeView {
            id: self.id@,
            capability: text::opt(self.capability),
            agent: text::opt(self.agent),
            depends_on: text::strs(self.depends_on@),
            instruction: text::opt(self.instruction),
            metadata: decode::labels(self.metadata@),
            gate_deadline_secs: self.gate_deadline_secs,
        }
    }
}

/// A planned DAG.
#[derive(Debug, PartialEq, Eq)]
pub struct DagSpec {
    pub nodes: Vec<DagNode>,
}

/// The views of a sequence of nodes: a `DagSpec` as a mathematical value.
pub open spec fn node_views(s: Seq<DagNode>) -> Seq<DagNodeView> {
    Seq::new(s.len(), |i: int| s[i]@)
}

impl View for DagSpec {
    type V = Seq<DagNodeView>;

    open spec fn view(&self) -> Seq<DagNodeView> {
        node_views(self.nodes@)
    }
}

/// The node that an object stands for, or the complaint about the object.
pub open spec fn node_by_name(v: JsonView) -> Result<DagNodeView, Seq<char>> {
    match (
        decode::opt_text_in(json::member(v, "agent"@)),
        decode::opt_text_in(json::member(v, "capability"@)),
        decode::texts_in(json::member(v, "depends_on"@)),
        decode::opt_natural_in(json::member(v, "gate_deadline_secs"@)),
        decode::text_in(json::member(v, "id"@)),
        decode::opt_text_in(json::member(v, "instruction"@)),
        decode::labels_in(json::member(v, "metadata"@)),
    ) {
        (Err(e), _, _, _, _, _, _) => Err(e),
        (_, Err(e), _, _, _, _, _) => Err(e),
        (_, _, Err(e), _, _, _, _) => Err(e),
        (_, _, _, Err(e), _, _, _) => Err(e),
        (_, _, _, _, Err(e), _, _) => Err(e),
        (_, _, _, _, _, Err(e), _) => Err(e),
        (_, _, _, _, _, _, Err(e)) => Err(e),
        (_, _, _, _, Ok(None), _, _) => Err(decode::missing("id"@)),
        (
            Ok(agent),
            Ok(capability),
            Ok(depends_on),
            Ok(gate_deadline_secs),
            Ok(Some(id)),
            Ok(instruction),
            Ok(metadata),
        ) => Ok(
            DagNodeView {
                id,
                capability,
                agent,
                depends_on,
                instruction,
                metadata,
                gate_deadline_secs,
            },
        ),
    }
}

/// The node whose fields a list gives in their order, or the complaint about the
/// list.
pub open spec fn node_in_order(s: Seq<JsonView>) -> Result<DagNodeView, Seq<char>> {
    match (
        decode::text_in(decode::item(s, 0)),
        decode::opt_text_in(decode::item(s, 1)),
        decode::opt_text_in(decode::item(s, 2)),
        decode::texts_in(decode::item(s, 3)),
        decode::opt_text_in(decode::item(s, 4)),
        decode::labels_in(decode::item(s, 5)),
        decode::opt_natural_in(decode::item(s, 6)),
    ) {
        (Err(e), _, _, _, _, _, _) => Err(e),
        (Ok(None), _, _, _, _, _, _) => Err(
            decode::wrong_length(0, "struct DagNode with 7 elements"@),
        ),
        (_, Err(e), _, _, _, _, _) => Err(e),
        (_, _, Err(e), _, _, _, _) => Err(e),
        (_, _, _, Err(e), _, _, _) => Err(e),
        (_, _, _, _, Err(e), _, _) => Err(e),
        (_, _, _, _, _, Err(e), _) => Err(e),
        (_, _, _, _, _, _, Err(e)) => Err(e),
        (
            Ok(Some(id)),
            Ok(capability),
            Ok(agent),
            Ok(depends_on),
            Ok(instruction),
            Ok(metadata),
            Ok(gate_deadline_secs),
        ) => if s.len() > 7 {
            Err(decode::too_long(s.len()))
        } else {
            Ok(
                DagNodeView {
                    id,
                    capability,
                    agent,
                    depends_on,
                    instruction,
                    metadata,
                    gate_deadline_secs,
                },
            )
        },
    }
}

/// The node that a JSON value stands for, or the complaint about the value.
pub open spec fn node_of(v: JsonView) -> Result<DagNodeView, Seq<char>> {
    match v {
        JsonView::Object(_) => node_by_name(v),
        JsonView::List(s) => node_in_order(s),
        _ => Err(decode::wrong_kind(v, "struct DagNode"@)),
    }
}

/// The nodes among the first `n` members of a list; the complaint about the first
/// that is no node.
pub open spec fn nodes_upto(s: Seq<JsonView>, n: nat) -> Result<Seq<DagNodeView>, Seq<char>>
    decreases n,
{
    if n == 0 {
        Ok(Seq::empty())
    } else {
        match nodes_upto(s, (n - 1) as nat) {
            Err(e) => Err(e),
            Ok(done) => match node_of(s[n - 1]) {
                Ok(x) => Ok(done.push(x)),
                Err(e) => Err(e),
            },
        }
    }
}

/// The nodes in a list, or the complaint about the value.
pub open spec fn nodes_of(v: JsonView) -> Result<Seq<DagNodeView>, Seq<char>> {
    match v {
        JsonView::List(s) => nodes_upto(s, s.len()),
        _ => Err(decode::wrong_kind(v, "a sequence"@)),
    }
}

/// The DAG that a JSON value stands for, or the complaint about the value.
pub open spec fn dag_of(v: JsonView) -> Result<Seq<DagNodeView>, Seq<char>> {
    match v {
        JsonView::Object(_) => match json::member(v, "nodes"@) {
            None => Err(decode::missing("nodes"@)),
            Some(x) => nodes_of(x),
        },
        JsonView::List(s) => if s.len() == 0 {
            Err(decode::wrong_length(0, "struct DagSpec with 1 element"@))
        } else {
            match nodes_of(s[0]) {
                Err(e) => Err(e),
                Ok(d) => if s.len() > 1 {
                    Err(decode::too_long(s.len()))
                } else {
                    Ok(d)
                },
            }
        },
        _ => Err(decode::wrong_kind(v, "struct DagSpec"@)),
    }
}

/// See `node_by_name`.
fn read_node_by_name(v: &Json) -> (r: Result<DagNode, String>)
    ensures
        match r {
            Ok(n) => node_by_name(v@) == Ok::<DagNodeView, Seq<char>>(n@),
            Err(e) => node_by_name(v@) == Err::<DagNodeView, Seq<char>>(e@),
        },
{
    let agent = match decode::opt_text_field(v.get("agent")) {
        Ok(x) => x,
        Err(e) => return Err(e),
    };
    let capability = match decode::opt_text_field(v.get("capability")) {
        Ok(x) => x,
        Err(e) => return Err(e),
    };
    let depends_on = match decode::texts_field(v.get("depends_on")) {
        Ok(x) => x,
        Err(e) => return Err(e),
    };
    let gate_deadline_secs = match decode::opt_natural_field(v.get("gate_deadline_secs")) {
        Ok(x) => x,
        Err(e) => return Err(e),
    };
    let id = match decode::text_field(v.get("id")) {
        Ok(x) => x,
        Err(e) => return Err(e),
    };
    let instruction = match decode::opt_text_field(v.get("instruction")) {
        Ok(x) => x,
        Err(e) => return Err(e),
    };
    let metadata = match decode::labels_field(v.get("metadata")) {
        Ok(x) => x,
        Err(e) => return Err(e),
    };
    let id = match id {
        Some(x) => x,
        None => return Err(decode::complain_missing("id")),
    };
    Ok(DagNode { id, capability, agent, depends_on, instruction, metadata, gate_deadline_secs })
}

/// See `node_in_order`.
fn read_node_in_order(v: &Vec<Json>) -> (r: Result<DagNode, String>)
    ensures
        match r {
            Ok(n) => node_in_order(decode::items(v@)) == Ok::<DagNodeView, Seq<char>>(n@),
            Err(e) => node_in_order(decode::items(v@)) == Err::<DagNodeView, Seq<char>>(e@),
        },
{
    let id = match decode::text_field(decode::at(v, 0)) {
        Ok(Some(x)) => x,
        Ok(None) => return Err(decode::complain_length(0, "struct DagNode with 7 elements")),
        Err(e) => return Err(e),
    };
    let capability = match decode::opt_text_field(decode::at(v, 1)) {
        Ok(x) => x,
        Err(e) => return Err(e),
    };
    let agent = match decode::opt_text_field(decode::at(v, 2)) {
        Ok(x) => x,
        Err(e) => return Err(e),
    };
    let depends_on = match decode::texts_field(decode::at(v, 3)) {
        Ok(x) => x,
        Err(e) => return Err(e),
    };
    let instruction = match decode::opt_text_field(decode::at(v, 4)) {
        Ok(x) => x,
        Err(e) => return Err(e),
    };
    let metadata = match decode::labels_field(decode::at(v, 5)) {
        Ok(x) => x,
        Err(e) => return Err(e),
    };
    let gate_deadline_secs = match decode::opt_natural_field(decode::at(v, 6)) {
        Ok(x) => x,
        Err(e) => return Err(e),
    };
    if v.len() > 7 {
        return Err(decode::complain_length(v.len(), "fewer elements in array"));
    }
    Ok(DagNode { id, capability, agent, depends_on, instruction, metadata, gate_deadline_secs })
}

fn read_node(v: &Json) -> (r: Result<DagNode, String>)
    ensures
        match r {
            Ok(n) => node_of(v@) == Ok::<DagNodeView, Seq<char>>(n@),
            Err(e) => node_of(v@) == Err::<DagNodeView, Seq<char>>(e@),
        },
{
    match v {
        Json::Object(_) => read_node_by_name(v),
        Json::List(items) => {
            proof {
                json::lemma_list_view(*items);
            }
            read_node_in_order(items)
        },
        _ => Err(decode::complain(v, "struct DagNode")),
    }
}

proof fn lemma_nodes_error(s: Seq<JsonView>, n: nat, m: nat)
    requires
        n <= m,
        nodes_upto(s, n) is Err,
    ensures
        nodes_upto(s, m) == nodes_upto(s, n),
    decreases m,
{
    if n < m {
        lemma_nodes_error(s, n, (m - 1) as nat);
    }
}

/// See `nodes_of`.
fn read_nodes(v: &Json) -> (r: Result<Vec<DagNode>, String>)
    ensures
        match r {
            Ok(d) => nodes_of(v@) == Ok::<Seq<DagNodeView>, Seq<char>>(node_views(d@)),
            Err(e) => nodes_of(v@) == Err::<Seq<DagNodeView>, Seq<char>>(e@),
        },
{
    match v {
        Json::List(items) => {
            let ghost s = v@->List_0;
            let mut nodes: Vec<DagNode> = Vec::new();
            let mut i: usize = 0;
            assert(node_views(nodes@) =~= Seq::empty());
            while i < items.len()
                invariant
                    i <= items@.len(),
                    s.len() == items@.len(),
                    v@ == JsonView::List(s),
                    forall|k: int| 0 <= k < s.len() ==> #[trigger] s[k] == items@[k]@,
                    nodes_upto(s, i as nat) == Ok::<Seq<DagNodeView>, Seq<char>>(node_views(nodes@)),
                decreases items@.len() - i,
            {
                match read_node(&items[i]) {
                    Ok(n) => {
                        let ghost prior = node_views(nodes@);
                        nodes.push(n);
                        assert(node_views(nodes@) =~= prior.push(n@));
                    },
                    Err(e) => {
                        proof {
                            lemma_nodes_error(s, (i + 1) as nat, s.len());
                        }
                        return Err(e);
                    },
                }
                i += 1;
            }
            Ok(nodes)
        },
        _ => Err(decode::complain(v, "a sequence")),
    }
}

fn read_dag(v: &Json) -> (r: Result<DagSpec, String>)
    ensures
        match r {
            Ok(d) => dag_of(v@) == Ok::<Seq<DagNodeView>, Seq<char>>(d@),
            Err(e) => dag_of(v@) == Err::<Seq<DagNodeView>, Seq<char>>(e@),
        },
{
    match v {
        Json::Object(_) => match v.get("nodes") {
            None => Err(decode::complain_missing("nodes")),
            Some(x) => match read_nodes(x) {
                Ok(nodes) => Ok(DagSpec { nodes }),
                Err(e) => Err(e),
            },
        },
        Json::List(items) => {
            proof {
                json::lemma_list_view(*items);
            }
            if items.len() == 0 {
                return Err(decode::complain_length(0, "struct DagSpec with 1 element"));
            }
            match read_nodes(&items[0]) {
                Err(e) => Err(e),
                Ok(nodes) => if items.len() > 1 {
                    Err(decode::complain_length(items.len(), "fewer elements in array"))
                } else {
                    Ok(DagSpec { nodes })
                },
            }
        },
        _ => Err(decode::complain(v, "struct DagSpec")),
    }
}

/// Whether an earlier node has the id of the node at `i`.
pub open spec fn repeats(d: Seq<DagNodeView>, i: int) -> bool {
    exists|j: int| 0 <= j < i && (#[trigger] d[j]).id == d[i].id
}

/// Whether `x` is the id of a node.
pub open spec fn is_id(d: Seq<DagNodeView>, x: Seq<char>) -> bool {
    exists|j: int| 0 <= j < d.len() && (#[trigger] d[j]).id == x
}

/// What is wrong with the node at `i`, taken by itself and beside earlier ones.
pub open spec fn node_fault(d: Seq<DagNodeView>, i: int) -> Option<Seq<char>> {
    if repeats(d, i) {
        Some("duplicate node id '"@ + d[i].id + "'"@)
    } else if d[i].capability is None && d[i].agent is None {
        Some("node '"@ + d[i].id + "' has neither capability nor agent"@)
    } else {
        None
    }
}

/// What is wrong with the first of the first `n` nodes that has a fault.
pub open spec fn node_faults(d: Seq<DagNodeView>, n: nat) -> Option<Seq<char>>
    decreases n,
{
    if n == 0 {
        None
    } else if node_faults(d, (n - 1) as nat) is Some {
        node_faults(d, (n - 1) as nat)
    } else {
        node_fault(d, n - 1)
    }
}

/// What is wrong with the first `n` dependencies of the node `x`.
pub open spec fn dependency_faults(d: Seq<DagNodeView>, x: DagNodeView, n: nat) -> Option<Seq<char>>
    decreases n,
{
    if n == 0 {
        None
    } else if dependency_faults(d, x, (n - 1) as nat) is Some {
        dependency_faults(d, x, (n - 1) as nat)
    } else if !is_id(d, x.depends_on[n - 1]) {
        Some(
            "node '"@ + x.id + "' depends on unknown node '"@ + x.depends_on[n - 1] + "'"@,
        )
    } else {
        None
    }
}

/// What is wrong with the dependencies of the first `n` nodes.
pub open spec fn link_faults(d: Seq<DagNodeView>, n: nat) -> Option<Seq<char>>
    decreases n,
{
    if n == 0 {
        None
    } else if link_faults(d, (n - 1) as nat) is Some {
        link_faults(d, (n - 1) as nat)
    } else {
        dependency_faults(d, d[n - 1], d[n - 1].depends_on.len())
    }
}

/// The first fault of a DAG, if it has one.
pub open spec fn fault(d: Seq<DagNodeView>) -> Option<Seq<char>> {
    if d.len() == 0 {
        Some("DAG has no nodes"@)
    } else if node_faults(d, d.len()) is Some {
        node_faults(d, d.len())
    } else {
        link_faults(d, d.len())
    }
}

/// A DAG that can be built: it has nodes, their ids differ, each has a capability
/// or an agent, and each dependency is the id of a node.
pub open spec fn sound(d: Seq<DagNodeView>) -> bool {
    &&& d.len() > 0
    &&& forall|i: int, j: int| 0 <= i < j < d.len() ==> (#[trigger] d[i]).id != (#[trigger] d[j]).id
    &&& forall|i: int| 0 <= i < d.len() ==> (#[trigger] d[i]).capability is Some || d[i].agent is Some
    &&& forall|i: int, k: int|
        0 <= i < d.len() && 0 <= k < d[i].depends_on.len() ==> is_id(d, #[trigger] d[i].depends_on[k])
}

/// The first nodes have no fault where none of them has one.
pub proof fn lemma_node_faults(d: Seq<DagNodeView>, n: nat)
    requires
        n <= d.len(),
    ensures
        node_faults(d, n) is None <==> forall|i: int| 0 <= i < n ==> #[trigger] node_fault(d, i) is None,
    decreases n,
{
    if n > 0 {
        lemma_node_faults(d, (n - 1) as nat);
        assert(node_fault(d, n - 1) is None || node_fault(d, n - 1) is Some);
    }
}

/// The first dependencies of a node have no fault where each is the id of a node.
pub proof fn lemma_dependency_faults(d: Seq<DagNodeView>, x: DagNodeView, n: nat)
    requires
        n <= x.depends_on.len(),
    ensures
        dependency_faults(d, x, n) is None <==> forall|k: int| 0 <= k < n ==> is_id(d, #[trigger] x.depends_on[k]),
    decreases n,
{
    if n > 0 {
        lemma_dependency_faults(d, x, (n - 1) as nat);
    }
}

/// The dependencies of the first nodes have no fault where each is the id of a node.
pub proof fn lemma_link_faults(d: Seq<DagNodeView>, n: nat)
    requires
        n <= d.len(),
    ensures
        link_faults(d, n) is None <==> forall|i: int, k: int|
            0 <= i < n && 0 <= k < d[i].depends_on.len() ==> is_id(d, #[trigger] d[i].depends_on[k]),
    decreases n,
{
    if n > 0 {
        lemma_link_faults(d, (n - 1) as nat);
        lemma_dependency_faults(d, d[n - 1], d[n - 1].depends_on.len());
    }
}

/// A DAG has no fault exactly if it can be built.
pub proof fn law_faultless_is_sound(d: Seq<DagNodeView>)
    ensures
        fault(d) is None <==> sound(d),
{
    lemma_node_faults(d, d.len());
    lemma_link_faults(d, d.len());
    if forall|i: int| 0 <= i < d.len() ==> #[trigger] node_fault(d, i) is None {
        assert forall|i: int, j: int| 0 <= i < j < d.len() implies (#[trigger] d[i]).id != (#[trigger] d[j]).id by {
            assert(node_fault(d, j) is None);
        }
        assert forall|i: int| 0 <= i < d.len() implies (#[trigger] d[i]).capability is Some || d[i].agent is Some by {
            assert(node_fault(d, i) is None);
        }
    }
    if sound(d) {
        assert forall|i: int| 0 <= i < d.len() implies #[trigger] node_fault(d, i) is None by {
            if repeats(d, i) {
                let j = choose|j: int| 0 <= j < i && (#[trigger] d[j]).id == d[i].id;
                assert(d[j].id != d[i].id);
            }
        }
    }
}

/// The nodes without dependencies.
pub open spec fn entry_nodes(d: Seq<DagNodeView>) -> Seq<DagNodeView> {
    d.filter(|n: DagNodeView| n.depends_on.len() == 0)
}

/// Whether some node depends on `x`.
pub open spec fn depended_on(d: Seq<DagNodeView>, x: Seq<char>) -> bool {
    exists|i: int| 0 <= i < d.len() && (#[trigger] d[i]).depends_on.contains(x)
}

/// The nodes that no node depends on.
pub open spec fn terminal_nodes(d: Seq<DagNodeView>) -> Seq<DagNodeView> {
    d.filter(|n: DagNodeView| !depended_on(d, n.id))
}

/// The ids of nodes.
pub open spec fn ids_of(d: Seq<DagNodeView>) -> Seq<Seq<char>> {
    Seq::new(d.len(), |i: int| d[i].id)
}

/// The texts of borrowed strings.
pub open spec fn slices(s: Seq<&str>) -> Seq<Seq<char>> {
    Seq::new(s.len(), |i: int| s[i]@)
}

impl DagSpec {
    /// Read a DAG out of a JSON value, such as the answer of a planner.
    pub fn parse(value: &Json) -> (r: Result<DagSpec, AetherError>)
        ensures
            match r {
                Ok(d) => dag_of(value@) == Ok::<Seq<DagNodeView>, Seq<char>>(d@),
                Err(e) => dag_of(value@) matches Err(complaint) && e@ == (ErrorView::WorkflowError {
                    message: "invalid DAG JSON: "@ + complaint,
                }),
            },
    {
        match read_dag(value) {
            Ok(d) => Ok(d),
            Err(e) => Err(
                AetherError::WorkflowError { message: text::cat("invalid DAG JSON: ", e.as_str()) },
            ),
        }
    }

    fn find(&self, id: &str, n: usize) -> (r: bool)
        requires
            n <= self.nodes@.len(),
        ensures
            r == exists|j: int| 0 <= j < n && (#[trigger] self@[j]).id == id@,
    {
        let mut i: usize = 0;
        while i < n
            invariant
                i <= n <= self.nodes@.len(),
                forall|j: int| 0 <= j < i ==> (#[trigger] self@[j]).id != id@,
            decreases n - i,
        {
            assert(self@[i as int] == self.nodes@[i as int]@);
            if text::same(self.nodes[i].id.as_str(), id) {
                return true;
            }
            i += 1;
        }
        false
    }

    /// Check that the DAG can be built. Cycles are left to the workflow.
    pub fn validate(&self) -> (r: Result<(), AetherError>)
        ensures
            r is Ok <==> sound(self@),
            match fault(self@) {
                None => r is Ok,
                Some(message) => r matches Err(e) && e@ == (ErrorView::WorkflowError { message }),
            },
    {
        proof {
            law_faultless_is_sound(self@);
        }
        if self.nodes.len() == 0 {
            return Err(AetherError::WorkflowError { message: "DAG has no nodes".to_string() });
        }
        let ghost d = self@;
        let mut i: usize = 0;
        while i < self.nodes.len()
            invariant
                i <= self.nodes@.len(),
                d == self@,
                d.len() > 0,
                fault(d) is None <==> sound(d),
                node_faults(d, i as nat) is None,
            decreases self.nodes@.len() - i,
        {
            assert(d[i as int] == self.nodes@[i as int]@);
            if self.find(self.nodes[i].id.as_str(), i) {
                let mut message = text::cat("duplicate node id '", self.nodes[i].id.as_str());
                message.append("'");
                proof {
                    assert(repeats(d, i as int));
                    lemma_faults_stay(d, (i + 1) as nat, d.len());
                }
                return Err(AetherError::WorkflowError { message });
            }
            if self.nodes[i].capability.is_none() && self.nodes[i].agent.is_none() {
                let mut message = text::cat("node '", self.nodes[i].id.as_str());
                message.append("' has neither capability nor agent");
                proof {
                    lemma_faults_stay(d, (i + 1) as nat, d.len());
                }
                return Err(AetherError::WorkflowError { message });
            }
            i += 1;
        }
        let mut k: usize = 0;
        while k < self.nodes.len()
            invariant
                k <= self.nodes@.len(),
                d == self@,
                d.len() > 0,
                fault(d) is None <==> sound(d),
                node_faults(d, d.len()) is None,
                link_faults(d, k as nat) is None,
            decreases self.nodes@.len() - k,
        {
            assert(d[k as int] == self.nodes@[k as int]@);
            let mut j: usize = 0;
            while j < self.nodes[k as usize].depends_on.len()
                invariant
                    k < self.nodes@.len(),
                    d == self@,
                    d.len() > 0,
                    fault(d) is None <==> sound(d),
                    d[k as int] == self.nodes@[k as int]@,
                    j <= self.nodes@[k as int].depends_on@.len(),
                    node_faults(d, d.len()) is None,
                    link_faults(d, k as nat) is None,
                    dependency_faults(d, d[k as int], j as nat) is None,
                decreases self.nodes@[k as int].depends_on@.len() - j,
            {
                let dep = self.nodes[k].depends_on[j].as_str();
                assert(d[k as int].depends_on[j as int] == dep@);
                if !self.find(dep, self.nodes.len()) {
                    let mut message = text::cat("node '", self.nodes[k].id.as_str());
                    message.append("' depends on unknown node '");
                    message.append(dep);
                    message.append("'");
                    proof {
                        assert(!is_id(d, dep@));
                        lemma_dependency_stays(d, d[k as int], (j + 1) as nat, d[k as int].depends_on.len());
                        lemma_links_stay(d, (k + 1) as nat, d.len());
                    }
                    return Err(AetherError::WorkflowError { message });
                }
                j += 1;
            }
            k += 1;
        }
        Ok(())
    }

    /// The ids of the entry nodes. Call after `validate`.
    pub fn entry_ids(&self) -> (r: Vec<&str>)
        ensures
            slices(r@) == ids_of(entry_nodes(self@)),
    {
        let ghost d = self@;
        let ghost p = |n: DagNodeView| n.depends_on.len() == 0;
        let mut out: Vec<&str> = Vec::new();
        let mut i: usize = 0;
        assert(slices(out@) =~= ids_of(d.take(0).filter(p)));
        while i < self.nodes.len()
            invariant
                i <= self.nodes@.len(),
                d == self@,
                p == (|n: DagNodeView| n.depends_on.len() == 0),
                slices(out@) == ids_of(d.take(i as int).filter(p)),
            decreases self.nodes@.len() - i,
        {
            proof {
                assert(d[i as int] == self.nodes@[i as int]@);
                text::lemma_filter_more(d, p, i + 1);
            }
            if self.nodes[i].depends_on.len() == 0 {
                let ghost prior = slices(out@);
                out.push(self.nodes[i].id.as_str());
                proof {
                    assert(slices(out@) =~= prior.push(d[i as int].id));
                    assert(ids_of(d.take(i as int).filter(p).push(d[i as int])) =~= ids_of(
                        d.take(i as int).filter(p),
                    ).push(d[i as int].id));
                }
            }
            i += 1;
        }
        assert(d.take(d.len() as int) =~= d);
        out
    }

    fn is_depended_on(&self, id: &str) -> (r: bool)
        ensures
            r == depended_on(self@, id@),
    {
        let mut i: usize = 0;
        while i < self.nodes.len()
            invariant
                i <= self.nodes@.len(),
                forall|j: int| 0 <= j < i ==> !(#[trigger] self@[j]).depends_on.contains(id@),
            decreases self.nodes@.len() - i,
        {
            assert(self@[i as int] == self.nodes@[i as int]@);
            if text::contains(&self.nodes[i].depends_on, id) {
                return true;
            }
            i += 1;
        }
        false
    }

    /// The ids of the nodes that no node depends on. Call after `validate`.
    pub fn terminal_ids(&self) -> (r: Vec<&str>)
        ensures
            slices(r@) == ids_of(terminal_nodes(self@)),
    {
        let ghost d = self@;
        let ghost p = |n: DagNodeView| !depended_on(d, n.id);
        let mut out: Vec<&str> = Vec::new();
        let mut i: usize = 0;
        assert(slices(out@) =~= ids_of(d.take(0).filter(p)));
        while i < self.nodes.len()
            invariant
                i <= self.nodes@.len(),
                d == self@,
                p == (|n: DagNodeView| !depended_on(d, n.id)),
                slices(out@) == ids_of(d.take(i as int).filter(p)),
            decreases self.nodes@.len() - i,
        {
            proof {
                assert(d[i as int] == self.nodes@[i as int]@);
                text::lemma_filter_more(d, p, i + 1);
            }
            if !self.is_depended_on(self.nodes[i].id.as_str()) {
                let ghost prior = slices(out@);
                out.push(self.nodes[i].id.as_str());
                proof {
                    assert(slices(out@) =~= prior.push(d[i as int].id));
                    assert(ids_of(d.take(i as int).filter(p).push(d[i as int])) =~= ids_of(
                        d.take(i as int).filter(p),
                    ).push(d[i as int].id));
                }
            }
            i += 1;
        }
        assert(d.take(d.len() as int) =~= d);
        out
    }
}

proof fn lemma_faults_stay(d: Seq<DagNodeView>, n: nat, m: nat)
    requires
        n <= m,
        node_faults(d, n) is Some,
    ensures
        node_faults(d, m) == node_faults(d, n),
    decreases m,
{
    if n < m {
        lemma_faults_stay(d, n, (m - 1) as nat);
    }
}

/// The fault of an earlier dependency is the one that is told.
pub proof fn lemma_dependency_stays(d: Seq<DagNodeView>, x: DagNodeView, n: nat, m: nat)
    requires
        n <= m,
        dependency_faults(d, x, n) is Some,
    ensures
        dependency_faults(d, x, m) == dependency_faults(d, x, n),
    decreases m,
{
    if n < m {
        lemma_dependency_stays(d, x, n, (m - 1) as nat);
    }
}

proof fn lemma_links_stay(d: Seq<DagNodeView>, n: nat, m: nat)
    requires
        n <= m,
        link_faults(d, n) is Some,
    ensures
        link_faults(d, m) == link_faults(d, n),
    decreases m,
{
    if n < m {
        lemma_links_stay(d, n, (m - 1) as nat);
    }
}

/// A string, or `null`, as a JSON value.
pub open spec fn opt_json(o: Option<Seq<char>>) -> JsonView {
    match o {
        Some(s) => JsonView::Text(s),
        None => JsonView::Null,
    }
}

/// Strings as a JSON value.
pub open spec fn texts_json(s: Seq<Seq<char>>) -> JsonView {
    JsonView::List(Seq::new(s.len(), |i: int| JsonView::Text(s[i])))
}

/// Labels as a JSON value.
pub open spec fn labels_json(m: Map<Seq<char>, Seq<char>>) -> JsonView {
    JsonView::Object(m.map_values(|s: Seq<char>| JsonView::Text(s)))
}

impl DagNodeView {
    /// The JSON form of a node.
    pub open spec fn json(self) -> JsonView {
        JsonView::Object(
            map![
                "id"@ => JsonView::Text(self.id),
                "capability"@ => opt_json(self.capability),
                "agent"@ => opt_json(self.agent),
                "depends_on"@ => texts_json(self.depends_on),
                "instruction"@ => opt_json(self.instruction),
                "metadata"@ => labels_json(self.metadata),
                "gate_deadline_secs"@ => match self.gate_deadline_secs {
                    Some(n) => JsonView::Number(NumberView::Int(n as int)),
                    None => JsonView::Null,
                },
            ],
        )
    }
}

/// The JSON form of a DAG.
pub open spec fn dag_json(d: Seq<DagNodeView>) -> JsonView {
    JsonView::Object(map!["nodes"@ => JsonView::List(Seq::new(d.len(), |i: int| d[i].json()))])
}

/// The names of the members are different texts.
proof fn lemma_field_names()
    ensures
        "id"@.len() == 2,
        "capability"@.len() == 10,
        "agent"@.len() == 5,
        "depends_on"@.len() == 10,
        "capability"@[0] == 'c',
        "depends_on"@[0] == 'd',
        "instruction"@.len() == 11,
        "metadata"@.len() == 8,
        "gate_deadline_secs"@.len() == 18,
{
    reveal_strlit("id");
    reveal_strlit("capability");
    reveal_strlit("agent");
    reveal_strlit("depends_on");
    reveal_strlit("instruction");
    reveal_strlit("metadata");
    reveal_strlit("gate_deadline_secs");
}

/// Strings read out of their own JSON form are the strings.
pub proof fn lemma_texts_round_trip(s: Seq<Seq<char>>, n: nat)
    requires
        n <= s.len(),
    ensures
        decode::texts_upto(texts_json(s)->List_0, n) == Ok::<Seq<Seq<char>>, Seq<char>>(s.take(n as int)),
    decreases n,
{
    if n > 0 {
        lemma_texts_round_trip(s, (n - 1) as nat);
        text::lemma_take_more(s, n as int);
    } else {
        assert(s.take(0) =~= Seq::empty());
    }
}

proof fn lemma_labels_round_trip(m: Map<Seq<char>, Seq<char>>, keys: Seq<Seq<char>>, n: nat)
    requires
        n <= keys.len(),
        keys.to_set() == m.dom(),
    ensures
        decode::labels_upto(labels_json(m)->Object_0, keys, n) == Ok::<Map<Seq<char>, Seq<char>>, Seq<char>>(
            m.restrict(keys.take(n as int).to_set()),
        ),
    decreases n,
{
    if n > 0 {
        lemma_labels_round_trip(m, keys, (n - 1) as nat);
        text::lemma_take_more(keys, n as int);
        let k = keys[n - 1];
        assert(keys.contains(k));
        assert(keys.to_set().contains(k));
        assert forall|x: Seq<char>| keys.take(n as int).contains(x) implies m.dom().contains(x) by {
            let a = choose|a: int| 0 <= a < keys.take(n as int).len() && keys.take(n as int)[a] == x;
            assert(keys[a] == x);
            assert(keys.to_set().contains(x));
        }
        assert(m.restrict(keys.take(n as int).to_set()) =~= m.restrict(keys.take(n - 1).to_set()).insert(k, m[k]));
    } else {
        assert(m.restrict(keys.take(0).to_set()) =~= Map::empty());
    }
}

/// Labels read out of their own JSON form are the labels.
pub proof fn lemma_label_map_round_trip(l: Map<Seq<char>, Seq<char>>)
    requires
        l.dom().finite(),
    ensures
        decode::labels_of(labels_json(l)) == Ok::<Map<Seq<char>, Seq<char>>, Seq<char>>(l),
{
    let m = labels_json(l)->Object_0;
    assert(m.dom() =~= l.dom());
    text_map::lemma_sorted_keys(m);
    let keys = text_map::sorted_keys(m);
    lemma_labels_round_trip(l, keys, keys.len());
    assert(keys.take(keys.len() as int) =~= keys);
    assert(l.restrict(keys.to_set()) =~= l);
}

proof fn lemma_node_round_trip(x: DagNodeView)
    requires
        x.metadata.dom().finite(),
    ensures
        node_of(x.json()) == Ok::<DagNodeView, Seq<char>>(x),
{
    lemma_field_names();
    assert("capability"@ != "depends_on"@);
    lemma_texts_round_trip(x.depends_on, x.depends_on.len());
    assert(x.depends_on.take(x.depends_on.len() as int) =~= x.depends_on);
    lemma_label_map_round_trip(x.metadata);
}

proof fn lemma_nodes_round_trip(d: Seq<DagNodeView>, n: nat)
    requires
        n <= d.len(),
        forall|i: int| 0 <= i < d.len() ==> (#[trigger] d[i]).metadata.dom().finite(),
    ensures
        nodes_upto(Seq::new(d.len(), |i: int| d[i].json()), n) == Ok::<Seq<DagNodeView>, Seq<char>>(
            d.take(n as int),
        ),
    decreases n,
{
    if n > 0 {
        lemma_nodes_round_trip(d, (n - 1) as nat);
        text::lemma_take_more(d, n as int);
        lemma_node_round_trip(d[n - 1]);
    } else {
        assert(d.take(0) =~= Seq::empty());
    }
}

/// A DAG read out of its own JSON form is the DAG.
pub proof fn law_dag_round_trip(d: Seq<DagNodeView>)
    requires
        forall|i: int| 0 <= i < d.len() ==> (#[trigger] d[i]).metadata.dom().finite(),
    ensures
        dag_of(dag_json(d)) == Ok::<Seq<DagNodeView>, Seq<char>>(d),
{
    lemma_nodes_round_trip(d, d.len());
    assert(d.take(d.len() as int) =~= d);
}

fn opt_to_json(o: &Option<String>) -> (r: Json)
    ensures
        r@ == opt_json(text::opt(*o)),
{
    match o {
        Some(s) => Json::text(s.as_str()),
        None => Json::Null,
    }
}

/// Labels as a JSON value.
pub fn labels_to_json(m: &TextMap<String>) -> (r: Json)
    ensures
        r@ == labels_json(decode::labels(m@)),
{
    let ghost want = labels_json(decode::labels(m@))->Object_0;
    let mut out: TextMap<Json> = TextMap::new();
    let n: usize = m.len();
    let mut i: usize = 0;
    while i < n
        invariant
            i <= n,
            n == m.keys().len(),
            m.keys().to_set() == m@.dom(),
            forall|k: Seq<char>| #[trigger] out@.dom().contains(k) <==> m.keys().take(i as int).contains(k),
            forall|k: Seq<char>| #[trigger] out@.dom().contains(k) ==> out@[k]@ == JsonView::Text(m@[k]@),
        decreases n - i,
    {
        proof {
            text::lemma_take_more(m.keys(), i + 1);
        }
        let (k, x) = m.at(i);
        out.insert(k.clone(), Json::text(x.as_str()));
        i += 1;
    }
    let r = Json::Object(out);
    proof {
        assert(m.keys().take(n as int) =~= m.keys());
        assert forall|k: Seq<char>| m.keys().contains(k) <==> m@.dom().contains(k) by {
            assert(m.keys().to_set().contains(k) <==> m.keys().contains(k));
        }
        assert(r@->Object_0 =~= want);
    }
    r
}

impl DagNode {
    /// The JSON form.
    pub fn to_json(&self) -> (r: Json)
        ensures
            r@ == self@.json(),
    {
        let depends_on = supervisor::text_list(&self.depends_on);
        assert(depends_on@->List_0 =~= texts_json(self@.depends_on)->List_0);
        let gate = match self.gate_deadline_secs {
            Some(n) => Json::uint(n),
            None => Json::Null,
        };
        let mut m: TextMap<Json> = TextMap::new();
        m.insert("id".to_string(), Json::text(self.id.as_str()));
        m.insert("capability".to_string(), opt_to_json(&self.capability));
        m.insert("agent".to_string(), opt_to_json(&self.agent));
        m.insert("depends_on".to_string(), depends_on);
        m.insert("instruction".to_string(), opt_to_json(&self.instruction));
        m.insert("metadata".to_string(), labels_to_json(&self.metadata));
        m.insert("gate_deadline_secs".to_string(), gate);
        let r = Json::Object(m);
        assert(r@->Object_0 =~= self@.json()->Object_0);
        r
    }
}

/// The DAG that a stored text stands for, or the complaint about the text.
pub open spec fn stored_dag(s: Seq<char>) -> Result<Seq<DagNodeView>, Seq<char>> {
    match json::json_parse(s) {
        Err(e) => Err(e),
        Ok(v) => match dag_of(v) {
            Ok(d) => Ok(d),
            Err(complaint) => Err(
                (ErrorView::WorkflowError { message: "invalid DAG JSON: "@ + complaint }).words(),
            ),
        },
    }
}

/// The JSON form of a DAG is flat.
proof fn lemma_dag_json_nests(d: Seq<DagNodeView>)
    ensures
        json::nests_within(dag_json(d), 127),
{
    reveal_with_fuel(json::nests_within, 5);
    let list = JsonView::List(Seq::new(d.len(), |i: int| d[i].json()));
    assert forall|i: int| 0 <= i < d.len() implies json::nests_within(#[trigger] (list->List_0)[i], 125) by {
        let x = d[i];
        assert(json::nests_within(texts_json(x.depends_on), 124));
        assert(json::nests_within(labels_json(x.metadata), 124));
    }
}

impl DagSpec {
    /// The text in which the DAG is kept with its execution. Read back, it is the
    /// DAG again.
    pub fn to_text(&self) -> (r: String)
        ensures
            r@ == json::json_text(dag_json(self@)),
            stored_dag(r@) == Ok::<Seq<DagNodeView>, Seq<char>>(self@),
    {
        let mut nodes: Vec<Json> = Vec::new();
        let mut i: usize = 0;
        while i < self.nodes.len()
            invariant
                i <= self.nodes@.len(),
                nodes@.len() == i,
                forall|j: int| 0 <= j < i ==> (#[trigger] nodes@[j])@ == self@[j].json(),
                forall|j: int| 0 <= j < i ==> (#[trigger] self@[j]).metadata.dom().finite(),
            decreases self.nodes@.len() - i,
        {
            assert(self@[i as int] == self.nodes@[i as int]@);
            let count: usize = self.nodes[i].metadata.len();
            assert(self@[i as int].metadata.dom() =~= self.nodes@[i as int].metadata@.dom());
            nodes.push(self.nodes[i].to_json());
            i += 1;
        }
        let list = Json::List(nodes);
        assert(list@->List_0 =~= Seq::new(self@.len(), |i: int| self@[i].json()));
        let mut m: TextMap<Json> = TextMap::new();
        m.insert("nodes".to_string(), list);
        let r = Json::Object(m);
        proof {
            assert(r@->Object_0 =~= dag_json(self@)->Object_0);
            lemma_dag_json_nests(self@);
            law_dag_round_trip(self@);
        }
        r.to_text()
    }
}

} // verus!

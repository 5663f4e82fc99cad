//! What becomes of a goal and its plan, told by the registered instances and the nodes
//! of the DAG.

use vstd::prelude::*;
use crate::dag;
use crate::dag::DagNodeView;
use crate::dag_laws;
use crate::envelope::{EnvelopeKind, EnvelopeView};
use crate::error::{ErrorView, OutcomeView};
use crate::execution_store;
use crate::execution_store::{NodeStatus, NodeView, StoreView};
use crate::json;
use crate::json::JsonView;
use crate::orchestrator;
use crate::registry_store::{EntryView, RegistryStatus};
use crate::text;
use crate::types::{AgentNodeView, EndpointView, SpawnPolicy};

verus! {

/// Whether the instance at `j` is healthy and offers a capability.
pub open spec fn offers(entries: Seq<EntryView>, j: int, capability: Seq<char>) -> bool {
    &&& 0 <= j < entries.len()
    &&& entries[j].status == RegistryStatus::Healthy
    &&& exists|k: int| 0 <= k < entries[j].capabilities.len() && #[trigger] entries[j].capabilities[k] == capability
}

/// Whether the instance at `j` is a healthy one of an agent.
pub open spec fn runs_agent(entries: Seq<EntryView>, j: int, name: Seq<char>) -> bool {
    &&& 0 <= j < entries.len()
    &&& entries[j].status == RegistryStatus::Healthy
    &&& entries[j].name == name
}

/// Whether the instance at `j` may run a node: a node that names an agent is run by
/// that agent, whatever capability it names; any other by whoever offers its
/// capability.
pub open spec fn may_run(entries: Seq<EntryView>, j: int, n: DagNodeView) -> bool {
    match n.agent {
        Some(name) => runs_agent(entries, j, name),
        None => n.capability is Some && offers(entries, j, n.capability->0),
    }
}

/// Whether the instance at `j` is the first that may run a node.
pub open spec fn is_chosen(entries: Seq<EntryView>, j: int, n: DagNodeView) -> bool {
    may_run(entries, j, n) && forall|i: int| 0 <= i < j ==> !#[trigger] may_run(entries, i, n)
}

proof fn lemma_first_match<A>(s: Seq<A>, p: spec_fn(A) -> bool) -> (j: int)
    ensures
        match execution_store::first(s, p) {
            Some(a) => 0 <= j < s.len() && s[j] == a && p(a) && forall|i: int|
                0 <= i < j ==> !p(#[trigger] s[i]),
            None => forall|i: int| 0 <= i < s.len() ==> !p(#[trigger] s[i]),
        },
    decreases s.len(),
{
    if s.len() == 0 || p(s[0]) {
        0
    } else {
        let t = s.drop_first();
        let k = lemma_first_match(t, p);
        match execution_store::first(t, p) {
            Some(a) => {
                assert forall|i: int| 0 <= i < k + 1 implies !p(#[trigger] s[i]) by {
                    if i > 0 {
                        assert(!p(t[i - 1]));
                    }
                }
            },
            None => {
                assert forall|i: int| 0 <= i < s.len() implies !p(#[trigger] s[i]) by {
                    if i > 0 {
                        assert(!p(t[i - 1]));
                    }
                }
            },
        }
        k + 1
    }
}

/// The instance that is found for a capability is the first healthy one that offers
/// it, and none is found where none does.
pub proof fn law_first_that_offers(entries: Seq<EntryView>, capability: Seq<char>) -> (j: int)
    ensures
        match orchestrator::capable(entries, capability) {
            Some(e) => offers(entries, j, capability) && entries[j] == e && forall|i: int|
                0 <= i < j ==> !#[trigger] offers(entries, i, capability),
            None => forall|i: int| !#[trigger] offers(entries, i, capability),
        },
{
    let p = |e: EntryView| e.status == RegistryStatus::Healthy && e.capabilities.contains(capability);
    let j = lemma_first_match(entries, p);
    assert forall|i: int| 0 <= i < entries.len() implies (#[trigger] offers(entries, i, capability) <==> p(
        entries[i],
    )) by {
        if p(entries[i]) {
            let k = choose|k: int|
                0 <= k < entries[i].capabilities.len() && entries[i].capabilities[k] == capability;
            assert(entries[i].capabilities[k] == capability);
        }
    }
    j
}

/// The instance that is found for an agent is the first healthy one of that name, and
/// none is found where there is none.
pub proof fn law_first_of_the_name(entries: Seq<EntryView>, name: Seq<char>) -> (j: int)
    ensures
        match orchestrator::named(entries, name) {
            Some(e) => runs_agent(entries, j, name) && entries[j] == e && forall|i: int|
                0 <= i < j ==> !#[trigger] runs_agent(entries, i, name),
            None => forall|i: int| !#[trigger] runs_agent(entries, i, name),
        },
{
    let p = |e: EntryView| e.status == RegistryStatus::Healthy && e.name == name;
    let j = lemma_first_match(entries, p);
    assert forall|i: int| 0 <= i < entries.len() implies (#[trigger] runs_agent(entries, i, name) <==> p(
        entries[i],
    )) by {}
    j
}

/// The words for a node that no instance may run.
pub open spec fn nobody_for(n: DagNodeView) -> Seq<char> {
    match n.agent {
        Some(name) => "no healthy instance for agent '"@ + name + "'"@,
        None => "no healthy agent for capability '"@ + n.capability->0 + "'"@,
    }
}

proof fn lemma_resolved(entries: Seq<EntryView>, n: DagNodeView) -> (j: int)
    requires
        n.agent is Some || n.capability is Some,
    ensures
        match orchestrator::resolved(entries, n) {
            Ok(e) => is_chosen(entries, j, n) && entries[j] == e,
            Err(words) => words == nobody_for(n) && forall|i: int| !#[trigger] may_run(entries, i, n),
        },
{
    match n.agent {
        Some(name) => {
            let j = law_first_of_the_name(entries, name);
            assert forall|i: int| #[trigger] may_run(entries, i, n) <==> runs_agent(entries, i, name) by {}
            j
        },
        None => {
            let j = law_first_that_offers(entries, n.capability->0);
            assert forall|i: int| #[trigger] may_run(entries, i, n) <==> offers(entries, i, n.capability->0) by {}
            j
        },
    }
}

/// Whether an agent is the one for a node at an address: it goes by the id of the node,
/// is called over HTTP anew for each task, is not tried again, and carries the
/// instruction and the deadline of the node.
pub open spec fn is_agent_for(a: AgentNodeView, n: DagNodeView, url: Seq<char>) -> bool {
    &&& a.name == n.id
    &&& a.factory == (EndpointView::Http { node_name: n.id, http_url: url })
    &&& a.spawn == SpawnPolicy::PerRequest
    &&& a.capabilities.len() == 0
    &&& a.failure.retries == 0
    &&& !a.failure.restart_on_failure
    &&& a.failure.fallback is None
    &&& a.timeout == orchestrator::seconds(300)
    &&& a.shutdown_grace == orchestrator::seconds(5)
    &&& a.gate_deadline_secs == n.gate_deadline_secs
    &&& forall|k: Seq<char>| #[trigger]
        a.metadata.dom().contains(k) <==> k == "instruction"@ && n.instruction is Some
    &&& n.instruction matches Some(s) ==> a.metadata["instruction"@] == s
}

proof fn lemma_agents(entries: Seq<EntryView>, d: Seq<DagNodeView>, n: nat, i: int) -> (j: int)
    requires
        dag::sound(d),
        n <= d.len(),
        orchestrator::resolved_upto(entries, d, n) is Ok,
        0 <= i < n,
    ensures
        is_chosen(entries, j, d[i]),
        orchestrator::resolved_upto(entries, d, n)->Ok_0.dom().contains(d[i].id),
        is_agent_for(
            orchestrator::resolved_upto(entries, d, n)->Ok_0[d[i].id],
            d[i],
            entries[j].http_url,
        ),
    decreases n,
{
    let x = d[n - 1];
    if i == n - 1 {
        lemma_resolved(entries, x)
    } else {
        assert(d[i].id != x.id);
        lemma_agents(entries, d, (n - 1) as nat, i)
    }
}

/// In a plan that is built every node is run by the first instance that may run it: a
/// healthy one of the agent that the node names, whatever capability it also names, or
/// one that offers its capability where it names no agent.
pub proof fn law_every_node_is_run_by_the_right_agent(entries: Seq<EntryView>, d: Seq<DagNodeView>, i: int) -> (j: int)
    requires
        orchestrator::built(entries, d) is Ok,
        0 <= i < d.len(),
    ensures
        is_chosen(entries, j, d[i]),
        orchestrator::built(entries, d)->Ok_0.0.dom().contains(d[i].id),
        is_agent_for(orchestrator::built(entries, d)->Ok_0.0[d[i].id], d[i], entries[j].http_url),
{
    dag::law_faultless_is_sound(d);
    lemma_agents(entries, d, d.len(), i)
}

/// Whether the ids of a DAG are its own, every node can be resolved, and every
/// dependency is one of its nodes.
pub open spec fn well_named(d: Seq<DagNodeView>) -> bool {
    &&& d.len() > 0
    &&& forall|i: int, j: int| 0 <= i < j < d.len() ==> (#[trigger] d[i]).id != (#[trigger] d[j]).id
    &&& forall|i: int| 0 <= i < d.len() ==> (#[trigger] d[i]).capability is Some || d[i].agent is Some
    &&& forall|i: int, k: int|
        0 <= i < d.len() && 0 <= k < d[i].depends_on.len() ==> names_a_node(d, #[trigger] d[i].depends_on[k])
}

/// Whether a node of the DAG has this id.
pub open spec fn names_a_node(d: Seq<DagNodeView>, x: Seq<char>) -> bool {
    exists|j: int| 0 <= j < d.len() && (#[trigger] d[j]).id == x
}

/// Whether some instance may run a node.
pub open spec fn can_be_run(entries: Seq<EntryView>, n: DagNodeView) -> bool {
    exists|j: int| #[trigger] may_run(entries, j, n)
}

/// Whether the node at `i` is the first that no instance may run.
pub open spec fn is_first_unstaffed(entries: Seq<EntryView>, d: Seq<DagNodeView>, i: int) -> bool {
    &&& 0 <= i < d.len()
    &&& !can_be_run(entries, d[i])
    &&& forall|l: int| 0 <= l < i ==> can_be_run(entries, #[trigger] d[l])
}

proof fn lemma_resolved_all(entries: Seq<EntryView>, d: Seq<DagNodeView>, n: nat)
    requires
        dag::sound(d),
        n <= d.len(),
    ensures
        match orchestrator::resolved_upto(entries, d, n) {
            Ok(_) => forall|i: int| 0 <= i < n ==> can_be_run(entries, #[trigger] d[i]),
            Err(words) => exists|i: int|
                #[trigger] is_first_unstaffed(entries, d, i) && i < n && words == nobody_for(d[i]),
        },
    decreases n,
{
    if n > 0 {
        lemma_resolved_all(entries, d, (n - 1) as nat);
        let x = d[n - 1];
        let j = lemma_resolved(entries, x);
        match orchestrator::resolved_upto(entries, d, (n - 1) as nat) {
            Ok(_) => {
                if orchestrator::resolved(entries, x) is Ok {
                    assert(may_run(entries, j, x));
                } else {
                    assert(is_first_unstaffed(entries, d, n - 1));
                }
            },
            Err(words) => {
                let i = choose|i: int|
                    #[trigger] is_first_unstaffed(entries, d, i) && i < n - 1 && words == nobody_for(d[i]);
                assert(is_first_unstaffed(entries, d, i) && i < n);
            },
        }
    }
}

/// A plan is built exactly where its DAG is well named, every node has an instance that
/// may run it, and no node depends on itself by way of others. A badly named or
/// circular DAG is a fault of the workflow; a node that nobody may run is one of the
/// registry, told of the first such node.
pub proof fn law_which_plans_are_built(entries: Seq<EntryView>, d: Seq<DagNodeView>)
    ensures
        ({
            let r = orchestrator::built(entries, d);
            let staffed = forall|i: int| 0 <= i < d.len() ==> can_be_run(entries, #[trigger] d[i]);
            &&& r is Ok <==> well_named(d) && staffed && !dag_laws::circular(d)
            &&& !well_named(d) ==> r is Err && r->Err_0 is WorkflowError
            &&& well_named(d) && !staffed ==> r is Err && exists|i: int|
                #[trigger] is_first_unstaffed(entries, d, i) && r->Err_0 == (ErrorView::RegistryError {
                    message: nobody_for(d[i]),
                })
            &&& well_named(d) && staffed && dag_laws::circular(d) ==> r is Err && r->Err_0 == (
            ErrorView::WorkflowError { message: "workflow graph contains a cycle"@ })
        }),
{
    dag::law_faultless_is_sound(d);
    dag_laws::law_circular_is_cyclic(d);
    lemma_well_named(d);
    if dag::sound(d) {
        lemma_resolved_all(entries, d, d.len());
        match orchestrator::resolved_upto(entries, d, d.len()) {
            Ok(_) => {},
            Err(words) => {
                let i = choose|i: int|
                    #[trigger] is_first_unstaffed(entries, d, i) && i < d.len() && words == nobody_for(d[i]);
                assert(!can_be_run(entries, d[i]));
            },
        }
    }
}

proof fn lemma_well_named(d: Seq<DagNodeView>)
    ensures
        well_named(d) <==> dag::sound(d),
{
    if dag::sound(d) {
        assert forall|i: int, k: int| 0 <= i < d.len() && 0 <= k < d[i].depends_on.len() implies names_a_node(
            d,
            #[trigger] d[i].depends_on[k],
        ) by {
            assert(dag::is_id(d, d[i].depends_on[k]));
        }
    }
    if well_named(d) {
        assert forall|i: int, k: int| 0 <= i < d.len() && 0 <= k < d[i].depends_on.len() implies dag::is_id(
            d,
            #[trigger] d[i].depends_on[k],
        ) by {
            assert(names_a_node(d, d[i].depends_on[k]));
        }
    }
}

/// The workflow of a plan that is built: an edge, without a condition, from each
/// dependency to its node and no other, and the nodes without dependencies as its
/// entries, each once.
pub proof fn law_edges_of_a_plan(entries: Seq<EntryView>, d: Seq<DagNodeView>, x: Seq<char>, y: Seq<char>)
    requires
        orchestrator::built(entries, d) is Ok,
    ensures
        ({
            let w = orchestrator::built(entries, d)->Ok_0.1;
            &&& forall|k: int| 0 <= k < w.edges.len() ==> (#[trigger] w.edges[k]).when is None
            &&& dag_laws::depends(d, x, y) <==> exists|k: int|
                0 <= k < w.edges.len() && (#[trigger] w.edges[k]).from == y && w.edges[k].to == x
            &&& w.entries.no_duplicates()
            &&& w.entries.contains(x) <==> dag_laws::is_entry(d, x)
        }),
{
    let w = orchestrator::built(entries, d)->Ok_0.1;
    orchestrator::lemma_mirrored_edges(d, d.len());
    dag::law_faultless_is_sound(d);
    dag_laws::lemma_picked_ids(d, |n: DagNodeView| n.depends_on.len() == 0);
    orchestrator::law_plan_runs_the_dag(entries, d, x, y);
    dag_laws::lemma_linked(d, y, x);
    assert forall|k: int| 0 <= k < w.edges.len() implies (#[trigger] w.edges[k]).when is None by {
        assert(w.edges.contains(w.edges[k]));
    }
}

/// The object in the answer of a planner is found whatever stands around it: text
/// before it that opens no brace, such as words or a fence, and text after it that
/// closes none.
pub proof fn law_plan_is_found_in_prose(payload: JsonView, before: Seq<char>, plan: Seq<char>, after: Seq<char>, v: JsonView)
    requires
        json::member(payload, "output"@) == Some(JsonView::Text(before + plan + after)),
        forall|i: int| 0 <= i < before.len() ==> #[trigger] before[i] != '{',
        forall|i: int| 0 <= i < after.len() ==> #[trigger] after[i] != '}',
        plan.len() > 1,
        plan[0] == '{',
        plan.last() == '}',
        json::json_parse(plan) == json::read(v),
    ensures
        orchestrator::planner_dag(payload) == Ok::<JsonView, ErrorView>(v),
{
    let s = before + plan + after;
    let a = before.len() as int;
    let b = before.len() + plan.len() - 1;
    assert(s[a] == '{' && s[b] == '}');
    lemma_first_of(s, '{', a);
    lemma_last_of(s, '}', b);
    assert(s.subrange(a, b + 1) =~= plan);
}

proof fn lemma_first_of(s: Seq<char>, c: char, a: int)
    requires
        0 <= a < s.len(),
        s[a] == c,
        forall|i: int| 0 <= i < a ==> #[trigger] s[i] != c,
    ensures
        orchestrator::first_of(s, c) == Some(a),
    decreases a,
{
    if a > 0 {
        let t = s.drop_first();
        assert forall|i: int| 0 <= i < a - 1 implies #[trigger] t[i] != c by {
            assert(t[i] == s[i + 1]);
        }
        lemma_first_of(t, c, a - 1);
        assert(s[0] != c);
    }
}

proof fn lemma_last_of(s: Seq<char>, c: char, b: int)
    requires
        0 <= b < s.len(),
        s[b] == c,
        forall|i: int| b < i < s.len() ==> #[trigger] s[i] != c,
    ensures
        orchestrator::last_of(s, c) == Some(b),
    decreases s.len(),
{
    if b < s.len() - 1 {
        let t = s.drop_last();
        assert forall|i: int| b < i < t.len() implies #[trigger] t[i] != c by {
            assert(t[i] == s[i]);
        }
        lemma_last_of(t, c, b);
        assert(s[s.len() - 1] != c);
    }
}

proof fn lemma_none_of(s: Seq<char>, c: char)
    ensures
        orchestrator::first_of(s, c) is None <==> forall|i: int| 0 <= i < s.len() ==> #[trigger] s[i] != c,
        orchestrator::first_of(s, c) matches Some(a) ==> 0 <= a < s.len() && s[a] == c,
        orchestrator::last_of(s, c) is None <==> forall|i: int| 0 <= i < s.len() ==> #[trigger] s[i] != c,
        orchestrator::last_of(s, c) matches Some(b) ==> 0 <= b < s.len() && s[b] == c,
    decreases s.len(),
{
    if s.len() > 0 {
        let t = s.drop_first();
        let u = s.drop_last();
        lemma_none_of(t, c);
        lemma_none_of(u, c);
        if forall|i: int| 0 <= i < t.len() ==> #[trigger] t[i] != c {
            assert forall|i: int| 1 <= i < s.len() implies #[trigger] s[i] != c by {
                assert(t[i - 1] == s[i]);
            }
        } else {
            let i = choose|i: int| 0 <= i < t.len() && #[trigger] t[i] == c;
            assert(s[i + 1] == c);
        }
        if forall|i: int| 0 <= i < u.len() ==> #[trigger] u[i] != c {
            assert forall|i: int| 0 <= i < s.len() - 1 implies #[trigger] s[i] != c by {
                assert(u[i] == s[i]);
            }
        } else {
            let i = choose|i: int| 0 <= i < u.len() && #[trigger] u[i] == c;
            assert(s[i] == c);
        }
        assert(s.last() == s[s.len() - 1]);
    }
}

/// An answer of a planner without a text under `output`, or whose text opens or closes
/// no brace, is no plan; and what is found in an answer is a text within its output
/// that begins with a brace, ends with one, and reads as JSON.
pub proof fn law_what_is_no_plan(payload: JsonView)
    ensures
        ({
            let r = orchestrator::planner_dag(payload);
            &&& !(json::member(payload, "output"@) matches Some(JsonView::Text(_))) ==> r == Err::<
                JsonView,
                ErrorView,
            >(
                ErrorView::WorkflowError { message: "planner result missing string `output` field"@ },
            )
            &&& json::member(payload, "output"@) matches Some(JsonView::Text(s)) ==> {
                &&& (forall|i: int| 0 <= i < s.len() ==> #[trigger] s[i] != '{') || (forall|i: int|
                    0 <= i < s.len() ==> #[trigger] s[i] != '}') ==> r == Err::<JsonView, ErrorView>(
                    ErrorView::WorkflowError { message: "planner output has no JSON object: "@ + s },
                )
                &&& r matches Ok(v) ==> exists|a: int, b: int|
                    0 <= a < b < s.len() && s[a] == '{' && s[b] == '}' && json::json_parse(
                        #[trigger] s.subrange(a, b + 1),
                    ) == json::read(v)
            }
        }),
{
    if let Some(JsonView::Text(s)) = json::member(payload, "output"@) {
        lemma_none_of(s, '{');
        lemma_none_of(s, '}');
        if let Ok(v) = orchestrator::planner_dag(payload) {
            let a = orchestrator::first_of(s, '{')->0;
            let b = orchestrator::last_of(s, '}')->0;
            assert(s[a] == '{' && s[b] == '}');
            assert(json::json_parse(s.subrange(a, b + 1)) == json::read(v));
        }
    }
}

/// What the answer of a planner leads to. A planner that fails, or whose answer holds
/// no plan, fails the goal in its name and in the words of the failure. A plan that
/// cannot be built fails the goal without a node. Otherwise the goal is run by the
/// agents and the workflow of exactly the plan that was answered.
pub proof fn law_goal_becomes_its_plan(entries: Seq<EntryView>, reply: Result<EnvelopeView, ErrorView>)
    ensures
        ({
            let r = orchestrator::planned(entries, reply);
            let failed = |words: Seq<char>| (OutcomeView::Failed { node: "planner"@, error: words });
            match reply {
                Err(e) => r is Err && r->Err_0 == failed(e.words()),
                Ok(env) => if env.kind == EnvelopeKind::Error {
                    r is Err && r->Err_0 == failed(json::json_text(env.payload))
                } else {
                    match orchestrator::planner_dag(env.payload) {
                        Err(e) => r is Err && r->Err_0 == failed(e.words()),
                        Ok(v) => match dag::dag_of(v) {
                            Err(complaint) => r is Err && r->Err_0 == failed(
                                "workflow error: "@ + ("invalid DAG JSON: "@ + complaint),
                            ),
                            Ok(d) => match orchestrator::built(entries, d) {
                                Err(e) => r is Err && r->Err_0 == (OutcomeView::Failed {
                                    node: Seq::empty(),
                                    error: e.words(),
                                }),
                                Ok(x) => r is Ok && r->Ok_0 == (x.0, x.1, d),
                            },
                        },
                    }
                },
            }
        }),
{
}

/// An execution is rebuilt from the plan that is stored with it; one that is not there,
/// or whose plan cannot be read or built, is not, and the words say why.
pub proof fn law_rebuilt_from_its_plan(entries: Seq<EntryView>, v: StoreView, wid: Seq<char>)
    ensures
        ({
            let r = orchestrator::rebuilt(entries, v, wid);
            let failed = |words: Seq<char>| (OutcomeView::Failed { node: Seq::empty(), error: words });
            match v.row(wid) {
                None => r is Err && r->Err_0 == failed("no such execution '"@ + wid + "'"@),
                Some(row) => match json::json_parse(row.record.workflow_spec) {
                    Err(e) => r is Err && r->Err_0 == failed(
                        "unparseable stored DAG for '"@ + wid + "': "@ + e,
                    ),
                    Ok(j) => match dag::dag_of(j) {
                        Err(e) => r is Err && r->Err_0 == failed(
                            "unparseable stored DAG for '"@ + wid + "': "@ + ("workflow error: "@ + (
                            "invalid DAG JSON: "@ + e)),
                        ),
                        Ok(d) => match orchestrator::built(entries, d) {
                            Err(e) => r is Err && r->Err_0 == failed(e.words()),
                            Ok(x) => r is Ok && r->Ok_0 == x,
                        },
                    },
                },
            }
        }),
{
}

/// The node that a decision is asked for is the first of the execution that waits for
/// one, and there is none exactly where the execution is not there or no node waits.
pub proof fn law_first_waiting_node(v: StoreView, wid: Seq<char>)
    ensures
        match orchestrator::waiting_node(v, wid) {
            Some(x) => v.row(wid) is Some && exists|j: int|
                0 <= j < v.nodes.len() && (#[trigger] v.nodes[j]).workflow_id == wid && v.nodes[j].node_id == x
                    && v.nodes[j].status == NodeStatus::Suspended,
            None => v.row(wid) is None || forall|j: int|
                0 <= j < v.nodes.len() && (#[trigger] v.nodes[j]).workflow_id == wid
                    ==> v.nodes[j].status != NodeStatus::Suspended,
        },
{
    let nodes = v.nodes_of(wid);
    let p = |n: NodeView| n.status == NodeStatus::Suspended;
    let q = |n: NodeView| n.workflow_id == wid;
    let i = lemma_first_match(nodes, p);
    match execution_store::first(nodes, p) {
        Some(n) => {
            v.nodes.lemma_filter_pred(q, i);
            v.nodes.lemma_filter_contains_rev(q, nodes[i]);
            let j = choose|j: int| 0 <= j < v.nodes.len() && v.nodes[j] == nodes[i];
            assert(v.nodes[j].workflow_id == wid);
        },
        None => {
            assert forall|j: int| 0 <= j < v.nodes.len() && (#[trigger] v.nodes[j]).workflow_id == wid implies v.nodes[j].status
                != NodeStatus::Suspended by {
                v.nodes.lemma_filter_contains(q, j);
                let k = choose|k: int| 0 <= k < nodes.len() && nodes[k] == v.nodes[j];
                assert(!p(nodes[k]));
            }
        },
    }
}

/// The capabilities that are listed are exactly those that a healthy instance offers,
/// each once and in ascending order.
pub proof fn law_capabilities_of_the_healthy(entries: Seq<EntryView>, s: Seq<Seq<char>>)
    requires
        orchestrator::lists_offered(entries, s),
    ensures
        orchestrator::offered(entries) == s,
        forall|i: int, j: int| 0 <= i < j < s.len() ==> text::lex_lt(#[trigger] s[i], #[trigger] s[j]),
        forall|c: Seq<char>| #[trigger] s.contains(c) ==> exists|j: int| #[trigger] offers(entries, j, c),
        forall|j: int, c: Seq<char>| #[trigger] offers(entries, j, c) ==> s.contains(c),
{
    orchestrator::lemma_offered_unique(entries, s, orchestrator::offered(entries));
    assert forall|c: Seq<char>| #[trigger] s.contains(c) implies exists|j: int| #[trigger] offers(entries, j, c) by {
        assert(orchestrator::is_offered(entries, c));
        let j = choose|j: int|
            0 <= j < entries.len() && (#[trigger] entries[j]).status == RegistryStatus::Healthy
                && entries[j].capabilities.contains(c);
        let k = choose|k: int| 0 <= k < entries[j].capabilities.len() && entries[j].capabilities[k] == c;
        assert(entries[j].capabilities[k] == c);
        assert(offers(entries, j, c));
    }
    assert forall|j: int, c: Seq<char>| #[trigger] offers(entries, j, c) implies s.contains(c) by {
        assert(entries[j].capabilities.contains(c));
        assert(orchestrator::is_offered(entries, c));
    }
}

} // verus!

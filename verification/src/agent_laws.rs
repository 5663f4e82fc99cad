//! What agents are sent and what is shown of them and of their runs.

use vstd::prelude::*;
use vstd::string::*;
use crate::dag;
use crate::dashboard;
use crate::dashboard::{InfoView, NodeTokens};
use crate::envelope;
use crate::envelope::EnvelopeView;
use crate::error::{ErrorView, OutcomeView};
use crate::events::{EventView, HealthView};
use crate::ids;
use crate::instance_manager;
use crate::instance_manager::{NodeState, Route};
use crate::json;
use crate::json::{JsonView, NumberView};
use crate::text;
use crate::text_map;
use crate::transport;
use crate::types::{AgentNodeView, SpawnPolicy};
use crate::wire_laws;

verus! {

/// The state of a pool of this size after so many tasks.
pub open spec fn dealt(size: usize, n: nat) -> Option<NodeState>
    decreases n,
{
    if n == 0 {
        instance_manager::initial_state(SpawnPolicy::Pool { size })
    } else {
        instance_manager::routed(dealt(size, (n - 1) as nat)).1
    }
}

proof fn lemma_dealt(size: usize, n: nat)
    requires
        n <= usize::MAX,
    ensures
        dealt(size, n) == Some(NodeState::Pool { size, cursor: n as usize }),
    decreases n,
{
    if n > 0 {
        lemma_dealt(size, (n - 1) as nat);
    }
}

/// The tasks of a new pool go to its instances in turn: the first to the first
/// instance, and each one to the instance behind that of the task before.
pub proof fn law_pool_is_dealt_in_turn(size: usize, n: nat)
    requires
        size > 0,
        n <= usize::MAX,
    ensures
        instance_manager::routed(dealt(size, n)).0 == (Route::Pool { index: (n as int % size as int) as usize }),
        (instance_manager::routed(dealt(size, n)).0)->index as int == n as int % size as int,
        (instance_manager::routed(dealt(size, n)).0)->index < size,
{
    lemma_dealt(size, n);
    vstd::arithmetic::div_mod::lemma_mod_bound(n as int, size as int);
}

/// A singleton starts with nothing to do. It refuses a task exactly while it has as
/// many as its queue may hold; a task that it takes is one more, and goes to it.
pub proof fn law_singleton_queue(pending: usize, max_queue: Option<usize>)
    requires
        pending < usize::MAX,
    ensures
        instance_manager::initial_state(SpawnPolicy::Singleton { max_queue }) == Some(
            NodeState::Singleton { pending: 0, max_queue },
        ),
        instance_manager::is_full(NodeState::Singleton { pending, max_queue }) <==> (max_queue matches Some(max)
            && max <= pending),
        ({
            let (route, after) = instance_manager::routed(Some(NodeState::Singleton { pending, max_queue }));
            &&& route is Singleton
            &&& after matches Some(NodeState::Singleton { pending: p, max_queue: m }) && p == pending + 1 && m
                == max_queue
        }),
{
}

/// An agent without long-running instances gets a fresh one for each task, and never
/// refuses one. A pool never does either.
pub proof fn law_fresh_instances(size: usize, cursor: usize)
    ensures
        instance_manager::initial_state(SpawnPolicy::PerRequest) is None,
        instance_manager::routed(None).0 is PerRequest,
        instance_manager::routed(None).1 is None,
        !instance_manager::is_full(NodeState::Pool { size, cursor }),
{
}

/// A state that is entered is that of its agent, and of no other. Where there is
/// nothing to enter, all stay as they were.
pub proof fn law_states_of_other_agents(
    m: Map<Seq<char>, NodeState>,
    name: Seq<char>,
    s: Option<NodeState>,
    other: Seq<char>,
)
    ensures
        other != name ==> instance_manager::state_of(instance_manager::with_state(m, name, s), other)
            == instance_manager::state_of(m, other),
        s is Some ==> instance_manager::state_of(instance_manager::with_state(m, name, s), name) == s,
        s is None ==> instance_manager::with_state(m, name, s) == m,
{
}

/// An address stands before its path without the slashes at its end, and with all the
/// rest.
pub proof fn law_address(s: Seq<char>) -> (k: int)
    ensures
        0 <= k <= s.len(),
        transport::trimmed(s) == s.take(k),
        k > 0 ==> s[k - 1] != '/',
        forall|i: int| k <= i < s.len() ==> #[trigger] s[i] == '/',
    decreases s.len(),
{
    if s.len() > 0 && s.last() == '/' {
        let t = s.drop_last();
        let k = law_address(t);
        assert(s.take(k) =~= t.take(k));
        if k > 0 {
            assert(s[k - 1] == t[k - 1]);
        }
        assert forall|i: int| k <= i < s.len() implies #[trigger] s[i] == '/' by {
            if i < s.len() - 1 {
                assert(t[i] == '/');
            }
        }
        k
    } else {
        assert(s.take(s.len() as int) =~= s);
        s.len() as int
    }
}

/// What an answer that was read is taken for: itself. One that could not be read, and
/// the end of a stream, are failures of the way to the agent.
pub proof fn law_answers(node: Seq<char>, e: EnvelopeView, complaint: Seq<char>)
    ensures
        transport::answered(node, Ok(e)) == Ok::<EnvelopeView, ErrorView>(e),
        transport::answered(node, Err(complaint)) == Err::<EnvelopeView, ErrorView>(
            ErrorView::TransportError { node, message: "failed to decode response: "@ + complaint },
        ),
        transport::line_answered(node, Some(Ok(e))) == Ok::<EnvelopeView, ErrorView>(e),
        transport::line_answered(node, Some(Err(complaint))) == Err::<EnvelopeView, ErrorView>(
            ErrorView::TransportError { node, message: complaint },
        ),
        transport::line_answered(node, None) == Err::<EnvelopeView, ErrorView>(
            ErrorView::TransportError { node, message: "agent closed connection (EOF)"@ },
        ),
{
}

/// A message as an agent reads it has the id, the kind and the labels that it had.
pub proof fn law_flattening_keeps_the_rest(e: EnvelopeView)
    ensures
        transport::flattened(e).id == e.id,
        transport::flattened(e).kind == e.kind,
        transport::flattened(e).metadata == e.metadata,
        transport::flattened(e).payload is Object,
        json::member(transport::flattened(e).payload, "input"@) is Some,
        e.payload matches JsonView::Text(s) ==> json::member(transport::flattened(e).payload, "input"@) == Some(
            JsonView::Text(s),
        ),
{
}

/// Whether a member is a text.
pub open spec fn is_text(v: JsonView, key: Seq<char>) -> bool {
    json::member(v, key) matches Some(x) && x is Text
}

/// The plain text of a payload: a text is itself; of an object it is the text under
/// `input`, else under `output`, else under `message`, else under `goal`; a number, a
/// truth value and `null` are written as JSON.
pub proof fn law_text_of_a_payload(v: JsonView, s: Seq<char>)
    ensures
        envelope::flat_text(JsonView::Text(s)) == s,
        json::member(v, "input"@) == Some(JsonView::Text(s)) ==> envelope::flat_text(v) == s,
        !is_text(v, "input"@) && json::member(v, "output"@) == Some(JsonView::Text(s))
            ==> envelope::flat_text(v) == s,
        !is_text(v, "input"@) && !is_text(v, "output"@) && json::member(v, "message"@) == Some(
            JsonView::Text(s),
        ) ==> envelope::flat_text(v) == s,
        !is_text(v, "input"@) && !is_text(v, "output"@) && !is_text(v, "message"@) && json::member(
            v,
            "goal"@,
        ) == Some(JsonView::Text(s)) ==> envelope::flat_text(v) == s,
        v is Null || v is Bool || v is Number ==> envelope::flat_text(v) == json::json_text(v),
{
}

/// The plain text of a list is that of its items, one behind the other with a line of
/// dashes between them.
pub proof fn law_text_of_a_list(s: Seq<JsonView>, x: JsonView)
    ensures
        envelope::flat_text(JsonView::List(Seq::empty())) == Seq::<char>::empty(),
        envelope::flat_text(JsonView::List(s.push(x))) == if s.len() == 0 {
            envelope::flat_text(x)
        } else {
            envelope::flat_text(JsonView::List(s)) + "\n\n---\n\n"@ + envelope::flat_text(x)
        },
{
    let t = s.push(x);
    let parts = envelope::part_texts(JsonView::List(t));
    assert(parts.len() == t.len());
    assert(parts.last() == envelope::flat_text(t[s.len() as int]));
    let before = envelope::part_texts(JsonView::List(s));
    assert(parts.drop_last() =~= before) by {
        assert forall|i: int| 0 <= i < s.len() implies parts.drop_last()[i] == before[i] by {
            assert(parts[i] == envelope::flat_text(t[i]));
            assert(before[i] == envelope::flat_text(s[i]));
        }
    }
    assert(envelope::part_texts(JsonView::List(Seq::empty())) =~= Seq::<Seq<char>>::empty());
}

/// The plain text of an object without a leading text is that of its members, in the
/// order of their names, as if they were a list.
pub proof fn law_text_of_an_object(v: JsonView, s: Seq<JsonView>)
    requires
        v is Object,
        v->Object_0.dom().finite(),
        !is_text(v, "input"@),
        !is_text(v, "output"@),
        !is_text(v, "message"@),
        !is_text(v, "goal"@),
        s == Seq::new(
            text_map::sorted_keys(v->Object_0).len(),
            |i: int| v->Object_0[text_map::sorted_keys(v->Object_0)[i]],
        ),
    ensures
        envelope::flat_text(v) == envelope::flat_text(JsonView::List(s)),
{
    let m = v->Object_0;
    let keys = text_map::sorted_keys(m);
    text_map::lemma_sorted_keys(m);
    let a = envelope::part_texts(v);
    let b = envelope::part_texts(JsonView::List(s));
    assert(a =~= b) by {
        assert forall|i: int| 0 <= i < keys.len() implies a[i] == b[i] by {
            assert(keys.contains(keys[i]));
            assert(keys.to_set().contains(keys[i]));
            assert(m.dom().contains(keys[i]));
            assert(b[i] == envelope::flat_text(s[i]));
        }
    }
}

/// Without a token everyone may look. With one, exactly the request that bears it.
pub proof fn law_who_may_look(token: Seq<char>, header: Option<Seq<char>>)
    ensures
        dashboard::may_look(None, header),
        dashboard::may_look(Some(token), header) <==> header == Some("Bearer "@ + token),
        !dashboard::may_look(Some(token), None),
{
}

/// The tokens of an answer are the numbers in its two labels, nought for one that is
/// not there or no number.
pub proof fn law_told_tokens(labels: Map<Seq<char>, Seq<char>>, n: u64)
    ensures
        !labels.dom().contains("tokens_input"@) ==> dashboard::told_tokens(labels).tokens_in == 0,
        !labels.dom().contains("tokens_output"@) ==> dashboard::told_tokens(labels).tokens_out == 0,
        labels.dom().contains("tokens_input"@) && text::number_of(labels["tokens_input"@]) == Some(n)
            ==> dashboard::told_tokens(labels).tokens_in == n,
        labels.dom().contains("tokens_output"@) && text::number_of(labels["tokens_output"@]) == Some(n)
            ==> dashboard::told_tokens(labels).tokens_out == n,
        labels.dom().contains("tokens_input"@) && text::number_of(labels["tokens_input"@]) is None
            ==> dashboard::told_tokens(labels).tokens_in == 0,
        labels.dom().contains("tokens_output"@) && text::number_of(labels["tokens_output"@]) is None
            ==> dashboard::told_tokens(labels).tokens_out == 0,
{
}

/// An answer adds its tokens to those of its agent, up to the largest number; the
/// tokens of other agents stay.
pub proof fn law_tokens_of_an_answer(
    m: Map<Seq<char>, NodeTokens>,
    node: Seq<char>,
    labels: Map<Seq<char>, Seq<char>>,
    other: Seq<char>,
)
    ensures
        ({
            let before = dashboard::tokens_of(m, node);
            let told = dashboard::told_tokens(labels);
            let after = dashboard::tokens_of(dashboard::with_reply(m, node, labels), node);
            &&& after.tokens_in == if before.tokens_in + told.tokens_in <= u64::MAX {
                before.tokens_in + told.tokens_in
            } else {
                u64::MAX as int
            }
            &&& after.tokens_out == if before.tokens_out + told.tokens_out <= u64::MAX {
                before.tokens_out + told.tokens_out
            } else {
                u64::MAX as int
            }
            &&& other != node ==> dashboard::tokens_of(dashboard::with_reply(m, node, labels), other)
                == dashboard::tokens_of(m, other)
            &&& !m.dom().contains(node) ==> before.tokens_in == 0 && before.tokens_out == 0
            &&& m.dom().contains(node) ==> before == m[node]
        }),
{
}

/// The id of the run that an event is about, where it changes what is shown of it.
pub open spec fn run_of(e: EventView) -> Option<u128> {
    match e {
        EventView::WorkflowStarted { workflow_id, .. } => Some(workflow_id),
        EventView::WorkflowFinished { workflow_id, .. } => Some(workflow_id),
        EventView::NodeSuspended { workflow_id, .. } => Some(workflow_id),
        _ => None,
    }
}

/// The word that is shown for a run after an event about it.
pub open spec fn shown_word(e: EventView) -> Seq<char> {
    match e {
        EventView::WorkflowStarted { .. } => "running"@,
        EventView::WorkflowFinished { result, .. } => match result {
            OutcomeView::Success(_) => "done"@,
            OutcomeView::Timeout { .. } => "timeout"@,
            OutcomeView::Failed { .. } => "failed"@,
            OutcomeView::Suspended { .. } => "suspended"@,
        },
        _ => "suspended"@,
    }
}

/// A run that starts is shown as running, with its entries. A known run that ends, or
/// that waits, is shown so, with the entries it had. What is shown of other runs, and
/// what no event tells of, stays.
pub proof fn law_shown_runs(m: Map<Seq<char>, InfoView>, e: EventView, other: Seq<char>)
    ensures
        ({
            let u = dashboard::after_event(m, e);
            &&& match run_of(e) {
                None => u == m,
                Some(id) => {
                    let w = ids::id_text(id);
                    &&& other != w ==> (u.dom().contains(other) <==> m.dom().contains(other)) && u[other]
                        == m[other]
                    &&& !(e is WorkflowStarted) && !m.dom().contains(w) ==> u == m
                    &&& e is WorkflowStarted || m.dom().contains(w) ==> u.dom().contains(w) && u[w].status
                        == shown_word(e)
                    &&& e matches EventView::WorkflowStarted { entries, .. } ==> u[w].entries == entries
                        && u[w].workflow_id == w
                    &&& !(e is WorkflowStarted) && m.dom().contains(w) ==> u[w].entries == m[w].entries
                        && u[w].workflow_id == m[w].workflow_id
                },
            }
        }),
{
}

/// Whether a JSON value tells of a run.
pub open spec fn tells_run(v: JsonView, i: InfoView) -> bool {
    &&& json::member(v, "workflow_id"@) == Some(JsonView::Text(i.workflow_id))
    &&& wire_laws::holds_texts(json::member(v, "entries"@), i.entries)
    &&& json::member(v, "status"@) == Some(JsonView::Text(i.status))
}

/// Every run is shown, once, in the order of the ids.
pub proof fn law_runs_are_listed(m: Map<Seq<char>, InfoView>)
    requires
        m.dom().finite(),
    ensures
        ({
            let keys = text_map::sorted_keys(m);
            &&& text_map::ascending(keys)
            &&& forall|k: Seq<char>| #[trigger] keys.contains(k) <==> m.dom().contains(k)
            &&& dashboard::runs_json(m) matches JsonView::List(s) && s.len() == keys.len() && forall|i: int|
                0 <= i < s.len() ==> tells_run(#[trigger] s[i], m[keys[i]])
        }),
{
    let keys = text_map::sorted_keys(m);
    text_map::lemma_sorted_keys(m);
    assert forall|k: Seq<char>| #[trigger] keys.contains(k) <==> m.dom().contains(k) by {
        assert(keys.to_set().contains(k) <==> keys.contains(k));
    }
    reveal_strlit("workflow_id");
    reveal_strlit("entries");
    reveal_strlit("status");
    assert("workflow_id"@.len() == 11 && "entries"@.len() == 7 && "status"@.len() == 6);
}

/// Each agent is shown with its name, its capabilities, its tokens and its labels.
pub proof fn law_agents_are_shown(s: Seq<AgentNodeView>, tokens: Map<Seq<char>, NodeTokens>, i: int)
    requires
        0 <= i < s.len(),
    ensures
        dashboard::agents_view(s, tokens) matches JsonView::List(rows) && rows.len() == s.len() && {
            let v = rows[i];
            let t = dashboard::tokens_of(tokens, s[i].name);
            &&& json::member(v, "name"@) == Some(JsonView::Text(s[i].name))
            &&& wire_laws::holds_texts(json::member(v, "capabilities"@), s[i].capabilities)
            &&& json::member(v, "tokens_in"@) == Some(JsonView::Number(NumberView::Int(t.tokens_in as int)))
            &&& json::member(v, "tokens_out"@) == Some(JsonView::Number(NumberView::Int(t.tokens_out as int)))
            &&& wire_laws::holds_labels(json::member(v, "metadata"@), s[i].metadata)
            &&& (s[i].spawn is PerRequest ==> json::member(v, "spawn_policy"@) == Some(
                JsonView::Text("PerRequest"@),
            ))
            &&& (s[i].spawn matches SpawnPolicy::Pool { size } ==> json::member(v, "spawn_policy"@) == Some(
                JsonView::Text("Pool { size: "@ + text::decimal_text(size as nat) + " }"@),
            ))
            &&& (s[i].spawn == (SpawnPolicy::Singleton { max_queue: None }) ==> json::member(v, "spawn_policy"@)
                == Some(JsonView::Text("Singleton { max_queue: None }"@)))
            &&& (s[i].spawn matches SpawnPolicy::Singleton { max_queue: Some(n) } ==> json::member(
                v,
                "spawn_policy"@,
            ) == Some(
                JsonView::Text("Singleton { max_queue: Some("@ + text::decimal_text(n as nat) + ") }"@),
            ))
        },
{
    reveal_strlit("name");
    reveal_strlit("capabilities");
    reveal_strlit("spawn_policy");
    reveal_strlit("tokens_in");
    reveal_strlit("tokens_out");
    reveal_strlit("metadata");
    assert("name"@.len() == 4 && "capabilities"@.len() == 12 && "spawn_policy"@.len() == 12
        && "tokens_in"@.len() == 9 && "tokens_out"@.len() == 10 && "metadata"@.len() == 8);
    assert("capabilities"@[0] == 'c' && "spawn_policy"@[0] == 's');
    assert(dag::labels_json(s[i].metadata)->Object_0.dom() =~= s[i].metadata.dom());
}

/// Whether what is told with an event has a member.
pub open spec fn told(v: JsonView, name: Seq<char>, key: Seq<char>) -> Option<JsonView> {
    match json::member(v, name) {
        Some(x) => json::member(x, key),
        None => None,
    }
}

proof fn lemma_event_members()
    ensures
        "workflow_id"@.len() == 11,
        "entries"@.len() == 7,
        "result"@.len() == 6,
        "node"@.len() == 4,
        "envelope_id"@.len() == 11,
        "elapsed"@.len() == 7,
        "error"@.len() == 5,
        "attempt"@.len() == 7,
        "reason"@.len() == 6,
        "status"@.len() == 6,
        "session_id"@.len() == 10,
        "approval_id"@.len() == 11,
        "kind"@.len() == 4,
        "prompt"@.len() == 6,
        "workflow_id"@ != "envelope_id"@,
        "workflow_id"@ != "approval_id"@,
        "kind"@ != "node"@,
{
    reveal_strlit("workflow_id");
    reveal_strlit("entries");
    reveal_strlit("result");
    reveal_strlit("node");
    reveal_strlit("envelope_id");
    reveal_strlit("elapsed");
    reveal_strlit("error");
    reveal_strlit("attempt");
    reveal_strlit("reason");
    reveal_strlit("status");
    reveal_strlit("session_id");
    reveal_strlit("approval_id");
    reveal_strlit("kind");
    reveal_strlit("prompt");
    assert("workflow_id"@[0] == 'w' && "envelope_id"@[0] == 'e' && "approval_id"@[0] == 'a');
    assert("kind"@[0] == 'k' && "node"@[0] == 'n');
}

/// An event is written as one member, named after it, that holds what is told with it.
pub proof fn law_event_is_written(e: EventView)
    ensures
        ({
            let v = e.json();
            match e {
                EventView::WorkflowStarted { workflow_id, entries } => {
                    let n = "WorkflowStarted"@;
                    &&& told(v, n, "workflow_id"@) == Some(JsonView::Text(ids::id_text(workflow_id)))
                    &&& wire_laws::holds_texts(told(v, n, "entries"@), entries)
                },
                EventView::WorkflowFinished { workflow_id, result } => {
                    let n = "WorkflowFinished"@;
                    &&& told(v, n, "workflow_id"@) == Some(JsonView::Text(ids::id_text(workflow_id)))
                    &&& told(v, n, "result"@) is Some
                    &&& wire_laws::is_outcome(told(v, n, "result"@)->0, result)
                },
                EventView::TaskDispatched { workflow_id, node, envelope_id } => {
                    let n = "TaskDispatched"@;
                    &&& told(v, n, "workflow_id"@) == Some(JsonView::Text(ids::id_text(workflow_id)))
                    &&& told(v, n, "node"@) == Some(JsonView::Text(node))
                    &&& told(v, n, "envelope_id"@) == Some(JsonView::Text(ids::id_text(envelope_id)))
                },
                EventView::TaskCompleted { workflow_id, node, envelope_id, elapsed_ms } => {
                    let n = "TaskCompleted"@;
                    &&& told(v, n, "workflow_id"@) == Some(JsonView::Text(ids::id_text(workflow_id)))
                    &&& told(v, n, "node"@) == Some(JsonView::Text(node))
                    &&& told(v, n, "envelope_id"@) == Some(JsonView::Text(ids::id_text(envelope_id)))
                    &&& told(v, n, "elapsed"@) == Some(JsonView::Number(NumberView::Int(elapsed_ms as int)))
                },
                EventView::TaskFailed { workflow_id, node, error, attempt } => {
                    let n = "TaskFailed"@;
                    &&& told(v, n, "workflow_id"@) == Some(JsonView::Text(ids::id_text(workflow_id)))
                    &&& told(v, n, "node"@) == Some(JsonView::Text(node))
                    &&& told(v, n, "error"@) == Some(JsonView::Text(error))
                    &&& told(v, n, "attempt"@) == Some(JsonView::Number(NumberView::Int(attempt as int)))
                },
                EventView::AgentRestarted { node, reason } => {
                    let n = "AgentRestarted"@;
                    &&& told(v, n, "node"@) == Some(JsonView::Text(node))
                    &&& told(v, n, "reason"@) == Some(JsonView::Text(reason))
                },
                EventView::AgentHealthCheck { node, status } => {
                    let n = "AgentHealthCheck"@;
                    &&& told(v, n, "node"@) == Some(JsonView::Text(node))
                    &&& told(v, n, "status"@) is Some
                    &&& match status {
                        HealthView::Healthy => told(v, n, "status"@) == Some(JsonView::Text("Healthy"@)),
                        HealthView::Unreachable => told(v, n, "status"@) == Some(
                            JsonView::Text("Unreachable"@),
                        ),
                        HealthView::Degraded { reason } => told(
                            told(v, n, "status"@)->0,
                            "Degraded"@,
                            "reason"@,
                        ) == Some(JsonView::Text(reason)),
                    }
                },
                EventView::NodeSuspended { workflow_id, node, session_id, approval_id, kind, prompt } => {
                    let n = "NodeSuspended"@;
                    &&& told(v, n, "workflow_id"@) == Some(JsonView::Text(ids::id_text(workflow_id)))
                    &&& told(v, n, "node"@) == Some(JsonView::Text(node))
                    &&& told(v, n, "session_id"@) == Some(JsonView::Text(session_id))
                    &&& told(v, n, "approval_id"@) == Some(JsonView::Text(approval_id))
                    &&& told(v, n, "kind"@) == Some(JsonView::Text(kind))
                    &&& told(v, n, "prompt"@) == Some(JsonView::Text(prompt))
                },
            }
        }),
        forall|a: Seq<char>, b: Seq<char>|
            (#[trigger] json::member(e.json(), a)) is Some && (#[trigger] json::member(e.json(), b)) is Some
                ==> a == b,
{
    lemma_event_members();
    if let EventView::WorkflowFinished { workflow_id, result } = e {
        wire_laws::law_outcome_is_written(result);
    }
}

} // verus!

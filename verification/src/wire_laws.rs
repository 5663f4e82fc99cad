//! How messages are written and read, told by the members of their JSON form.

use vstd::prelude::*;
use vstd::string::*;
use crate::dag;
use crate::dag::DagNodeView;
use crate::decode;
use crate::envelope;
use crate::envelope::{EnvelopeKind, EnvelopeView};
use crate::error;
use crate::error::OutcomeView;
use crate::ids;
use crate::json;
use crate::json::{JsonView, NumberView};
use crate::jsonrpc;
use crate::registry_server;
use crate::registry_server::RegisterView;
use crate::resume;
use crate::resume::{DecisionView, SuspendView};
use crate::text;
use crate::text_map;
use crate::transport;

verus! {

/// Whether a JSON value stands for an outcome: one member, named after the way the run
/// ended, that holds what is known of the end.
pub open spec fn is_outcome(v: JsonView, o: OutcomeView) -> bool {
    let key = match o {
        OutcomeView::Success(_) => "Success"@,
        OutcomeView::Failed { .. } => "Failed"@,
        OutcomeView::Timeout { .. } => "Timeout"@,
        OutcomeView::Suspended { .. } => "Suspended"@,
    };
    let x = json::member(v, key)->0;
    &&& json::member(v, key) is Some
    &&& forall|k: Seq<char>| (#[trigger] json::member(v, k)) is Some ==> k == key
    &&& match o {
        OutcomeView::Success(result) => x == result,
        OutcomeView::Failed { node, error } => {
            &&& json::member(x, "node"@) == Some(JsonView::Text(node))
            &&& json::member(x, "error"@) == Some(JsonView::Text(error))
            &&& forall|k: Seq<char>| (#[trigger] json::member(x, k)) is Some ==> k == "node"@ || k
                == "error"@
        },
        OutcomeView::Timeout { node } => {
            &&& json::member(x, "node"@) == Some(JsonView::Text(node))
            &&& forall|k: Seq<char>| (#[trigger] json::member(x, k)) is Some ==> k == "node"@
        },
        OutcomeView::Suspended { workflow_id } => {
            &&& json::member(x, "workflow_id"@) == Some(JsonView::Text(ids::id_text(workflow_id)))
            &&& forall|k: Seq<char>| (#[trigger] json::member(x, k)) is Some ==> k == "workflow_id"@
        },
    }
}

/// An outcome is written as one member, named after the way the run ended, that holds
/// what is known of the end.
pub proof fn law_outcome_is_written(o: OutcomeView)
    ensures
        is_outcome(o.json(), o),
{
    reveal_strlit("node");
    reveal_strlit("error");
    assert("node"@.len() == 4 && "error"@.len() == 5);
}

/// Whether the id in an outcome, where it has one, is found again in its text.
pub open spec fn id_reads_back(o: OutcomeView) -> bool {
    o matches OutcomeView::Suspended { workflow_id } ==> ids::id_parse(ids::id_text(workflow_id))
        == ids::read(workflow_id)
}

/// An outcome read out of what was written of it is the outcome.
pub proof fn law_outcome_round_trip(o: OutcomeView)
    requires
        id_reads_back(o),
    ensures
        error::outcome_of(o.json()) == Some(o),
{
    error::lemma_tags();
    let m = o.json()->Object_0;
    match o {
        OutcomeView::Success(v) => {
            assert(m.dom() =~= set!["Success"@]);
        },
        OutcomeView::Failed { node, error } => {
            assert(m.dom() =~= set!["Failed"@]);
            assert(m.dom().contains("Failed"@));
        },
        OutcomeView::Timeout { node } => {
            assert(m.dom() =~= set!["Timeout"@]);
            assert(m.dom().contains("Timeout"@));
        },
        OutcomeView::Suspended { workflow_id } => {
            assert(m.dom() =~= set!["Suspended"@]);
            assert(m.dom().contains("Suspended"@));
        },
    }
}

/// What is read as an outcome was written as one: an object of one member that names a
/// way to end, with what is known of that end in it.
pub proof fn law_outcome_is_read(v: JsonView)
    ensures
        error::outcome_of(v) matches Some(o) ==> v is Object && match o {
            OutcomeView::Success(x) => json::member(v, "Success"@) == Some(x),
            OutcomeView::Failed { .. } => json::member(v, "Failed"@) is Some,
            OutcomeView::Timeout { .. } => json::member(v, "Timeout"@) is Some,
            OutcomeView::Suspended { .. } => json::member(v, "Suspended"@) is Some,
        } && forall|a: Seq<char>, b: Seq<char>|
            (#[trigger] json::member(v, a)) is Some && (#[trigger] json::member(v, b)) is Some ==> a == b,
{
    error::lemma_tags();
    if let Some(o) = error::outcome_of(v) {
        let m = v->Object_0;
        let key = match o {
            OutcomeView::Success(_) => "Success"@,
            OutcomeView::Failed { .. } => "Failed"@,
            OutcomeView::Timeout { .. } => "Timeout"@,
            OutcomeView::Suspended { .. } => "Suspended"@,
        };
        assert(m.dom() == set![key]);
        assert(m.dom().contains(key));
    }
}

/// A field of a value: the member of that name of an object, or the item at that place
/// of a list.
pub open spec fn field(v: JsonView, name: Seq<char>, place: int) -> Option<JsonView> {
    match v {
        JsonView::Object(_) => json::member(v, name),
        JsonView::List(s) => if 0 <= place < s.len() {
            Some(s[place])
        } else {
            None
        },
        _ => None,
    }
}

/// Whether a value is an object, or a list of no more than so many items.
pub open spec fn has_fields(v: JsonView, most: int) -> bool {
    match v {
        JsonView::Object(_) => true,
        JsonView::List(s) => s.len() <= most,
        _ => false,
    }
}

/// Whether a field holds this text, or, for none, is not there or `null`.
pub open spec fn holds_text(o: Option<JsonView>, t: Option<Seq<char>>) -> bool {
    match t {
        Some(s) => o == Some(JsonView::Text(s)),
        None => o is None || o == Some(JsonView::Null),
    }
}

/// Whether a field holds this number, or, for none, is not there or `null`.
pub open spec fn holds_number(o: Option<JsonView>, n: Option<u64>) -> bool {
    match n {
        Some(k) => o == Some(JsonView::Number(NumberView::Int(k as int))),
        None => o is None || o == Some(JsonView::Null),
    }
}

/// Whether a field holds these texts, in their order.
pub open spec fn holds_texts(o: Option<JsonView>, t: Seq<Seq<char>>) -> bool {
    o matches Some(JsonView::List(s)) && s.len() == t.len() && forall|i: int|
        0 <= i < t.len() ==> #[trigger] s[i] == JsonView::Text(t[i])
}

/// Whether a field holds these labels, and no other.
pub open spec fn holds_labels(o: Option<JsonView>, t: Map<Seq<char>, Seq<char>>) -> bool {
    o matches Some(JsonView::Object(m)) && m.dom() == t.dom() && forall|k: Seq<char>|
        t.dom().contains(k) ==> #[trigger] m[k] == JsonView::Text(t[k])
}

/// Whether the names in a field, where it is an object, can be counted.
pub open spec fn countable(o: Option<JsonView>) -> bool {
    o matches Some(JsonView::Object(m)) ==> m.dom().finite()
}

proof fn lemma_texts(s: Seq<JsonView>, n: nat, t: Seq<Seq<char>>)
    requires
        n <= s.len(),
    ensures
        decode::texts_upto(s, n) == Ok::<Seq<Seq<char>>, Seq<char>>(t) <==> t.len() == n && forall|i: int|
            0 <= i < n ==> #[trigger] s[i] == JsonView::Text(t[i]),
    decreases n,
{
    if n > 0 {
        let before = t.drop_last();
        if t.len() == n {
            lemma_texts(s, (n - 1) as nat, before);
            assert(before.push(t.last()) =~= t);
            if forall|i: int| 0 <= i < n ==> #[trigger] s[i] == JsonView::Text(t[i]) {
                assert(s[n - 1] == JsonView::Text(t[n - 1]));
            }
        }
        if let Ok(done) = decode::texts_upto(s, (n - 1) as nat) {
            lemma_texts(s, (n - 1) as nat, done);
            if let JsonView::Text(x) = s[n - 1] {
                assert(done.push(x).drop_last() =~= done);
            }
        }
    } else {
        assert(t.len() == 0 ==> t =~= Seq::<Seq<char>>::empty());
    }
}

proof fn lemma_holds_texts(v: JsonView, t: Seq<Seq<char>>)
    ensures
        decode::texts_of(v) == Ok::<Seq<Seq<char>>, Seq<char>>(t) <==> holds_texts(Some(v), t),
{
    if let JsonView::List(s) = v {
        lemma_texts(s, s.len(), t);
    }
}

proof fn lemma_labels(m: Map<Seq<char>, JsonView>, keys: Seq<Seq<char>>, n: nat)
    requires
        n <= keys.len(),
    ensures
        match decode::labels_upto(m, keys, n) {
            Ok(t) => {
                &&& forall|k: Seq<char>| #[trigger] t.dom().contains(k) <==> keys.take(n as int).contains(k)
                &&& forall|k: Seq<char>| t.dom().contains(k) ==> #[trigger] m[k] == JsonView::Text(t[k])
            },
            Err(_) => exists|i: int| 0 <= i < n && !((#[trigger] m[keys[i]]) is Text),
        },
    decreases n,
{
    if n > 0 {
        lemma_labels(m, keys, (n - 1) as nat);
        let last = keys[n - 1];
        if let Ok(done) = decode::labels_upto(m, keys, (n - 1) as nat) {
            if let JsonView::Text(x) = m[last] {
                let t = done.insert(last, x);
                assert forall|k: Seq<char>| #[trigger] t.dom().contains(k) <==> keys.take(n as int).contains(k) by {
                    let a = keys.take(n - 1);
                    let b = keys.take(n as int);
                    assert(b =~= a.push(last));
                    if a.contains(k) {
                        let i = choose|i: int| 0 <= i < a.len() && a[i] == k;
                        assert(b[i] == k);
                    }
                    assert(b[n - 1] == last);
                    if b.contains(k) {
                        let i = choose|i: int| 0 <= i < b.len() && b[i] == k;
                        if i < n - 1 {
                            assert(a[i] == k);
                        }
                    }
                }
            } else {
                assert(!(m[keys[n - 1]] is Text));
            }
        }
    }
}

proof fn lemma_holds_labels(v: JsonView, t: Map<Seq<char>, Seq<char>>)
    requires
        countable(Some(v)),
    ensures
        decode::labels_of(v) == Ok::<Map<Seq<char>, Seq<char>>, Seq<char>>(t) <==> holds_labels(Some(v), t),
{
    if let JsonView::Object(m) = v {
        let keys = text_map::sorted_keys(m);
        text_map::lemma_sorted_keys(m);
        lemma_labels(m, keys, keys.len());
        assert(keys.take(keys.len() as int) =~= keys);
        assert forall|k: Seq<char>| keys.contains(k) <==> m.dom().contains(k) by {
            assert(keys.to_set().contains(k) <==> keys.contains(k));
        }
        match decode::labels_of(v) {
            Ok(x) => {
                assert(x.dom() =~= m.dom());
                if holds_labels(Some(v), t) {
                    assert forall|k: Seq<char>| t.dom().contains(k) implies t[k] == x[k] by {
                        assert(m[k] == JsonView::Text(t[k]));
                        assert(x.dom().contains(k));
                    }
                    assert(x =~= t);
                }
            },
            Err(_) => {
                let i = choose|i: int| 0 <= i < keys.len() && !((#[trigger] m[keys[i]]) is Text);
                assert(keys.contains(keys[i]));
                assert(m.dom().contains(keys[i]));
            },
        }
    }
}

/// Whether a JSON value stands for a planned node: an object with its members, or a
/// list of its fields in their order, `id` being the one that must be there.
pub open spec fn is_node(v: JsonView, n: DagNodeView) -> bool {
    let depends_on = field(v, "depends_on"@, 3);
    let metadata = field(v, "metadata"@, 5);
    &&& has_fields(v, 7)
    &&& field(v, "id"@, 0) == Some(JsonView::Text(n.id))
    &&& holds_text(field(v, "capability"@, 1), n.capability)
    &&& holds_text(field(v, "agent"@, 2), n.agent)
    &&& holds_texts(depends_on, n.depends_on) || (depends_on is None && n.depends_on.len() == 0)
    &&& holds_text(field(v, "instruction"@, 4), n.instruction)
    &&& holds_labels(metadata, n.metadata) || (metadata is None && n.metadata
        == Map::<Seq<char>, Seq<char>>::empty())
    &&& holds_number(field(v, "gate_deadline_secs"@, 6), n.gate_deadline_secs)
}

/// A node is read exactly out of the values that stand for it.
pub proof fn law_node_is_read(v: JsonView, n: DagNodeView)
    requires
        countable(field(v, "metadata"@, 5)),
    ensures
        dag::node_of(v) == Ok::<DagNodeView, Seq<char>>(n) <==> is_node(v, n),
{
    let depends_on = field(v, "depends_on"@, 3);
    let metadata = field(v, "metadata"@, 5);
    if let Some(x) = depends_on {
        lemma_holds_texts(x, n.depends_on);
        if let Ok(t) = decode::texts_of(x) {
            lemma_holds_texts(x, t);
        }
    }
    if let Some(x) = metadata {
        lemma_holds_labels(x, n.metadata);
        if let Ok(t) = decode::labels_of(x) {
            lemma_holds_labels(x, t);
        }
    }
    assert(n.depends_on.len() == 0 ==> n.depends_on =~= Seq::<Seq<char>>::empty());
    if let JsonView::List(s) = v {
        assert(decode::item(s, 0) == field(v, "id"@, 0));
        assert(decode::item(s, 1) == field(v, "capability"@, 1));
        assert(decode::item(s, 2) == field(v, "agent"@, 2));
        assert(decode::item(s, 3) == depends_on);
        assert(decode::item(s, 4) == field(v, "instruction"@, 4));
        assert(decode::item(s, 5) == metadata);
        assert(decode::item(s, 6) == field(v, "gate_deadline_secs"@, 6));
    }
}

/// The items of a value that stands for a DAG.
pub open spec fn planned(v: JsonView) -> Option<JsonView> {
    field(v, "nodes"@, 0)
}

/// A DAG is read exactly out of the values that hold a list of its nodes, in their
/// order.
pub proof fn law_dag_is_read(v: JsonView, d: Seq<DagNodeView>)
    requires
        planned(v) matches Some(JsonView::List(s)) ==> forall|i: int|
            0 <= i < s.len() ==> countable(field(#[trigger] s[i], "metadata"@, 5)),
    ensures
        dag::dag_of(v) == Ok::<Seq<DagNodeView>, Seq<char>>(d) <==> has_fields(v, 1) && (planned(
            v,
        ) matches Some(JsonView::List(s)) && s.len() == d.len() && forall|i: int|
            0 <= i < s.len() ==> is_node(#[trigger] s[i], d[i])),
{
    if let Some(JsonView::List(s)) = planned(v) {
        lemma_nodes(s, s.len(), d);
    }
}

proof fn lemma_nodes(s: Seq<JsonView>, n: nat, d: Seq<DagNodeView>)
    requires
        n <= s.len(),
        forall|i: int| 0 <= i < s.len() ==> countable(field(#[trigger] s[i], "metadata"@, 5)),
    ensures
        dag::nodes_upto(s, n) == Ok::<Seq<DagNodeView>, Seq<char>>(d) <==> d.len() == n && forall|i: int|
            0 <= i < n ==> is_node(#[trigger] s[i], d[i]),
    decreases n,
{
    if n > 0 {
        if d.len() == n {
            let before = d.drop_last();
            lemma_nodes(s, (n - 1) as nat, before);
            law_node_is_read(s[n - 1], d[n - 1]);
            assert(before.push(d.last()) =~= d);
            if forall|i: int| 0 <= i < n ==> is_node(#[trigger] s[i], d[i]) {
                assert(is_node(s[n - 1], d[n - 1]));
                assert forall|i: int| 0 <= i < n - 1 implies is_node(#[trigger] s[i], before[i]) by {
                    assert(is_node(s[i], d[i]));
                }
            }
        }
        if let Ok(done) = dag::nodes_upto(s, (n - 1) as nat) {
            lemma_nodes(s, (n - 1) as nat, done);
            if let Ok(x) = dag::node_of(s[n - 1]) {
                law_node_is_read(s[n - 1], x);
                assert(done.push(x).drop_last() =~= done);
                if dag::nodes_upto(s, n) == Ok::<Seq<DagNodeView>, Seq<char>>(d) {
                    assert forall|i: int| 0 <= i < n implies is_node(#[trigger] s[i], d[i]) by {
                        if i < n - 1 {
                            assert(is_node(s[i], done[i]));
                        }
                    }
                }
            }
        }
    } else {
        assert(d.len() == 0 ==> d =~= Seq::<DagNodeView>::empty());
    }
}

proof fn lemma_node_members()
    ensures
        "id"@.len() == 2,
        "capability"@.len() == 10,
        "agent"@.len() == 5,
        "depends_on"@.len() == 10,
        "instruction"@.len() == 11,
        "metadata"@.len() == 8,
        "gate_deadline_secs"@.len() == 18,
        "capability"@ != "depends_on"@,
{
    reveal_strlit("id");
    reveal_strlit("capability");
    reveal_strlit("agent");
    reveal_strlit("depends_on");
    reveal_strlit("instruction");
    reveal_strlit("metadata");
    reveal_strlit("gate_deadline_secs");
    assert("capability"@[0] == 'c' && "depends_on"@[0] == 'd');
}

/// A node is written with each of its seven members, what it does not have being
/// `null`, and the written value stands for it.
pub proof fn law_node_is_written(n: DagNodeView, k: Seq<char>)
    ensures
        is_node(n.json(), n),
        n.json() is Object,
        json::member(n.json(), k) is Some <==> k == "id"@ || k == "capability"@ || k == "agent"@ || k
            == "depends_on"@ || k == "instruction"@ || k == "metadata"@ || k == "gate_deadline_secs"@,
{
    lemma_node_members();
    assert(n.json()->Object_0.dom().contains(k) <==> json::member(n.json(), k) is Some);
    let m = dag::labels_json(n.metadata)->Object_0;
    assert(m.dom() =~= n.metadata.dom());
}

/// A DAG is written as an object with the list of its nodes, in their order.
pub proof fn law_dag_is_written(d: Seq<DagNodeView>)
    ensures
        ({
            let v = dag::dag_json(d);
            &&& v is Object
            &&& json::member(v, "nodes"@) matches Some(JsonView::List(s)) && s.len() == d.len() && forall|i: int|
                0 <= i < d.len() ==> is_node(#[trigger] s[i], d[i])
            &&& forall|k: Seq<char>| (#[trigger] json::member(v, k)) is Some ==> k == "nodes"@
        }),
{
    let s = json::member(dag::dag_json(d), "nodes"@)->0->List_0;
    assert forall|i: int| 0 <= i < d.len() implies is_node(#[trigger] s[i], d[i]) by {
        law_node_is_written(d[i], "id"@);
    }
}

/// What is said of values that are no nodes: one without an `id`, and one that is
/// neither an object nor a list.
pub proof fn law_no_node(v: JsonView)
    ensures
        v is Object && json::member(v, "id"@) is None ==> dag::node_of(v) is Err,
        v is Object && json::member(v, "id"@) is None && json::member(v, "agent"@) is None && json::member(
            v,
            "capability"@,
        ) is None && json::member(v, "depends_on"@) is None && json::member(v, "gate_deadline_secs"@) is None
            && json::member(v, "instruction"@) is None && json::member(v, "metadata"@) is None ==> dag::node_of(v)
            == Err::<DagNodeView, Seq<char>>("missing field `"@ + "id"@ + "`"@),
        v is Object && json::member(v, "nodes"@) is None ==> dag::dag_of(v) == Err::<
            Seq<DagNodeView>,
            Seq<char>,
        >("missing field `"@ + "nodes"@ + "`"@),
        v is Null ==> dag::node_of(v) == Err::<DagNodeView, Seq<char>>(
            "invalid type: "@ + "null"@ + ", expected "@ + "struct DagNode"@,
        ),
        !(v is Object) && !(v is List) ==> dag::node_of(v) is Err && dag::dag_of(v) is Err,
{
}

/// The word for what a message is.
pub open spec fn message_word(k: EnvelopeKind) -> Seq<char> {
    match k {
        EnvelopeKind::Invoke => "invoke"@,
        EnvelopeKind::Result => "result"@,
        EnvelopeKind::Error => "error"@,
        EnvelopeKind::Suspended => "suspended"@,
    }
}

/// Whether a field tells what a message is: the word, or an object whose one member is
/// named by the word and holds nothing.
pub open spec fn tells_kind(o: Option<JsonView>, k: EnvelopeKind) -> bool {
    o == Some(JsonView::Text(message_word(k))) || (o matches Some(JsonView::Object(m)) && m.dom()
        =~= set![message_word(k)] && m[message_word(k)] == JsonView::Null)
}

/// Whether a JSON value stands for a message: an object with its members, or a list of
/// its four fields in their order.
pub open spec fn is_message(v: JsonView, e: EnvelopeView) -> bool {
    &&& has_fields(v, 4)
    &&& field(v, "id"@, 0) matches Some(JsonView::Text(s)) && ids::id_parse(s) == ids::read(e.id)
    &&& tells_kind(field(v, "kind"@, 1), e.kind)
    &&& field(v, "payload"@, 2) == Some(e.payload)
    &&& holds_labels(field(v, "metadata"@, 3), e.metadata)
}

proof fn lemma_words()
    ensures
        "invoke"@ != "result"@,
        "invoke"@ != "error"@,
        "invoke"@ != "suspended"@,
        "result"@ != "error"@,
        "result"@ != "suspended"@,
        "error"@ != "suspended"@,
{
    reveal_strlit("invoke");
    reveal_strlit("result");
    reveal_strlit("error");
    reveal_strlit("suspended");
    assert("invoke"@[0] == 'i' && "result"@[0] == 'r' && "error"@[0] == 'e' && "suspended"@[0] == 's');
}

proof fn lemma_kind(o: Option<JsonView>, k: EnvelopeKind)
    requires
        countable(o),
    ensures
        envelope::kind_in(o) == Ok::<Option<EnvelopeKind>, Seq<char>>(Some(k)) <==> tells_kind(o, k),
{
    lemma_words();
    if let Some(JsonView::Object(m)) = o {
        let names = text_map::sorted_keys(m);
        text_map::lemma_sorted_keys(m);
        assert(names.to_set() == m.dom());
        if names.len() == 1 {
            assert(m.dom() =~= set![names[0]]) by {
                assert forall|x: Seq<char>| m.dom().contains(x) <==> x == names[0] by {
                    assert(names.to_set().contains(x) <==> names.contains(x));
                    if x == names[0] {
                        assert(names.contains(names[0]));
                    }
                }
            }
            assert(m.dom().contains(names[0]));
            if tells_kind(o, k) {
                assert(set![message_word(k)].contains(names[0]));
            }
        }
        if tells_kind(o, k) {
            let w = message_word(k);
            assert(m.dom().contains(w));
            assert(names.to_set().contains(w));
            if names.len() != 1 {
                assert(names.contains(w));
                assert(names.len() > 1);
                assert(names.contains(names[0]) && names.contains(names[1]));
                assert(names.to_set().contains(names[0]) && names.to_set().contains(names[1]));
                assert(names[0] == w && names[1] == w);
                assert(text::lex_lt(names[0], names[1]));
                text::lemma_lex_irreflexive(w);
            }
        }
    }
}

/// A message is read exactly out of the values that stand for it.
pub proof fn law_message_is_read(v: JsonView, e: EnvelopeView)
    requires
        countable(field(v, "metadata"@, 3)),
        countable(field(v, "kind"@, 1)),
    ensures
        envelope::envelope_of(v) == Ok::<EnvelopeView, Seq<char>>(e) <==> is_message(v, e),
{
    let metadata = field(v, "metadata"@, 3);
    let kind = field(v, "kind"@, 1);
    lemma_kind(kind, e.kind);
    if let Ok(Some(k)) = envelope::kind_in(kind) {
        lemma_kind(kind, k);
    }
    if let Some(x) = metadata {
        lemma_holds_labels(x, e.metadata);
        if let Ok(t) = decode::labels_of(x) {
            lemma_holds_labels(x, t);
        }
    }
    if let JsonView::List(s) = v {
        assert(decode::item(s, 0) == field(v, "id"@, 0));
        assert(decode::item(s, 1) == kind);
        assert(decode::item(s, 2) == field(v, "payload"@, 2));
        assert(decode::item(s, 3) == metadata);
    }
}

/// A message is written with its four members: its id, the word for what it is, its
/// payload as it is, and its labels.
pub proof fn law_message_is_written(e: EnvelopeView, k: Seq<char>)
    ensures
        ({
            let v = e.json();
            &&& v is Object
            &&& json::member(v, "id"@) == Some(JsonView::Text(ids::id_text(e.id)))
            &&& json::member(v, "kind"@) == Some(JsonView::Text(message_word(e.kind)))
            &&& json::member(v, "payload"@) == Some(e.payload)
            &&& holds_labels(json::member(v, "metadata"@), e.metadata)
            &&& json::member(v, k) is Some ==> k == "id"@ || k == "kind"@ || k == "payload"@ || k
                == "metadata"@
        }),
{
    reveal_strlit("id");
    reveal_strlit("kind");
    reveal_strlit("payload");
    reveal_strlit("metadata");
    assert("id"@.len() == 2 && "kind"@.len() == 4 && "payload"@.len() == 7 && "metadata"@.len() == 8);
    assert(e.json()->Object_0.dom().contains(k) <==> json::member(e.json(), k) is Some);
    assert(dag::labels_json(e.metadata)->Object_0.dom() =~= e.metadata.dom());
}

/// What an agent that waits has said is read exactly out of the values that stand for
/// it: all its texts must be there, but for the deadline.
pub proof fn law_suspension_is_read(v: JsonView, p: SuspendView)
    ensures
        resume::suspend_of(v) == Ok::<SuspendView, Seq<char>>(p) <==> has_fields(v, 5) && field(
            v,
            "session_id"@,
            0,
        ) == Some(JsonView::Text(p.session_id)) && field(v, "approval_id"@, 1) == Some(
            JsonView::Text(p.approval_id),
        ) && field(v, "kind"@, 2) == Some(JsonView::Text(p.kind)) && field(v, "prompt"@, 3) == Some(
            JsonView::Text(p.prompt),
        ) && holds_text(field(v, "gate_deadline"@, 4), p.gate_deadline),
{
    if let JsonView::List(s) = v {
        assert(decode::item(s, 0) == field(v, "session_id"@, 0));
        assert(decode::item(s, 1) == field(v, "approval_id"@, 1));
        assert(decode::item(s, 2) == field(v, "kind"@, 2));
        assert(decode::item(s, 3) == field(v, "prompt"@, 3));
        assert(decode::item(s, 4) == field(v, "gate_deadline"@, 4));
    }
}

/// What an agent that waits has said is written with its texts, and with the deadline
/// where there is one.
pub proof fn law_suspension_is_written(p: SuspendView, k: Seq<char>)
    ensures
        ({
            let v = p.json();
            &&& v is Object
            &&& json::member(v, "session_id"@) == Some(JsonView::Text(p.session_id))
            &&& json::member(v, "approval_id"@) == Some(JsonView::Text(p.approval_id))
            &&& json::member(v, "kind"@) == Some(JsonView::Text(p.kind))
            &&& json::member(v, "prompt"@) == Some(JsonView::Text(p.prompt))
            &&& match p.gate_deadline {
                Some(d) => json::member(v, "gate_deadline"@) == Some(JsonView::Text(d)),
                None => json::member(v, "gate_deadline"@) is None,
            }
            &&& json::member(v, k) is Some ==> k == "session_id"@ || k == "approval_id"@ || k == "kind"@ || k
                == "prompt"@ || k == "gate_deadline"@
        }),
{
    reveal_strlit("session_id");
    reveal_strlit("approval_id");
    reveal_strlit("kind");
    reveal_strlit("prompt");
    reveal_strlit("gate_deadline");
    assert("session_id"@.len() == 10 && "approval_id"@.len() == 11 && "kind"@.len() == 4 && "prompt"@.len() == 6
        && "gate_deadline"@.len() == 13);
}

/// Whether a JSON value stands for a decision: its type, and what goes with it.
pub open spec fn is_decision(v: JsonView, d: DecisionView) -> bool {
    match d {
        DecisionView::Approved => {
            &&& field(v, "type"@, 0) == Some(JsonView::Text("approved"@))
            &&& v matches JsonView::List(s) ==> s.len() == 1
        },
        DecisionView::Rejected { reason } => {
            &&& field(v, "type"@, 0) == Some(JsonView::Text("rejected"@))
            &&& holds_text(field(v, "reason"@, 1), reason)
            &&& v matches JsonView::List(s) ==> s.len() == 2
        },
        DecisionView::Modified { payload } => {
            &&& field(v, "type"@, 0) == Some(JsonView::Text("modified"@))
            &&& field(v, "payload"@, 1) == Some(payload)
            &&& v matches JsonView::List(s) ==> s.len() == 2
        },
    }
}

proof fn lemma_decisions()
    ensures
        "approved"@ != "rejected"@,
        "approved"@ != "modified"@,
        "rejected"@ != "modified"@,
        "type"@.len() == 4,
        "reason"@.len() == 6,
        "payload"@.len() == 7,
{
    reveal_strlit("approved");
    reveal_strlit("rejected");
    reveal_strlit("modified");
    reveal_strlit("type");
    reveal_strlit("reason");
    reveal_strlit("payload");
    assert("approved"@[0] == 'a' && "rejected"@[0] == 'r' && "modified"@[0] == 'm');
}

/// A decision is read exactly out of the values that stand for it.
pub proof fn law_decision_is_read(v: JsonView, d: DecisionView)
    ensures
        resume::decision_of(v) == Some(d) <==> is_decision(v, d),
{
    lemma_decisions();
}

/// A decision is written by its type, with the reason of a rejection and the payload
/// of a change.
pub proof fn law_decision_is_written(d: DecisionView)
    ensures
        is_decision(d.json(), d),
        d.json() is Object,
        d matches DecisionView::Rejected { reason } ==> json::member(d.json(), "reason"@) is Some,
{
    lemma_decisions();
}

/// A decision on its way is read exactly out of the values that hold the two ids and
/// the decision.
pub proof fn law_resume_request_is_read(v: JsonView, q: resume::RequestView)
    ensures
        resume::request_of(v) == Some(q) <==> {
            &&& v matches JsonView::List(s) ==> s.len() == 3
            &&& field(v, "session_id"@, 0) == Some(JsonView::Text(q.session_id))
            &&& field(v, "approval_id"@, 1) == Some(JsonView::Text(q.approval_id))
            &&& field(v, "decision"@, 2) is Some
            &&& is_decision(field(v, "decision"@, 2)->0, q.decision)
        },
{
    if let Some(x) = field(v, "decision"@, 2) {
        law_decision_is_read(x, q.decision);
    }
}

/// A decision on its way is written with the two ids and the decision.
pub proof fn law_resume_request_is_written(q: resume::RequestView)
    ensures
        ({
            let v = q.json();
            &&& v is Object
            &&& json::member(v, "session_id"@) == Some(JsonView::Text(q.session_id))
            &&& json::member(v, "approval_id"@) == Some(JsonView::Text(q.approval_id))
            &&& json::member(v, "decision"@) is Some
            &&& is_decision(json::member(v, "decision"@)->0, q.decision)
        }),
{
    reveal_strlit("session_id");
    reveal_strlit("approval_id");
    reveal_strlit("decision");
    assert("session_id"@.len() == 10 && "approval_id"@.len() == 11 && "decision"@.len() == 8);
    law_decision_is_written(q.decision);
}

/// A request to be registered is read exactly out of the values that hold its name, its
/// address and its capabilities, and its labels where there are any.
pub proof fn law_register_request_is_read(v: JsonView, q: RegisterView)
    requires
        countable(field(v, "metadata"@, 3)),
    ensures
        registry_server::register_of(v) == Ok::<RegisterView, Seq<char>>(q) <==> {
            let metadata = field(v, "metadata"@, 3);
            &&& has_fields(v, 4)
            &&& field(v, "name"@, 0) == Some(JsonView::Text(q.name))
            &&& field(v, "http_url"@, 1) == Some(JsonView::Text(q.http_url))
            &&& holds_texts(field(v, "capabilities"@, 2), q.capabilities)
            &&& holds_labels(metadata, q.metadata) || (metadata is None && q.metadata
                == Map::<Seq<char>, Seq<char>>::empty())
        },
{
    let metadata = field(v, "metadata"@, 3);
    if let Some(x) = field(v, "capabilities"@, 2) {
        lemma_holds_texts(x, q.capabilities);
        if let Ok(t) = decode::texts_of(x) {
            lemma_holds_texts(x, t);
        }
    }
    if let Some(x) = metadata {
        lemma_holds_labels(x, q.metadata);
        if let Ok(t) = decode::labels_of(x) {
            lemma_holds_labels(x, t);
        }
    }
    if let JsonView::List(s) = v {
        assert(decode::item(s, 0) == field(v, "name"@, 0));
        assert(decode::item(s, 1) == field(v, "http_url"@, 1));
        assert(decode::item(s, 2) == field(v, "capabilities"@, 2));
        assert(decode::item(s, 3) == metadata);
    }
}

/// An event of an instance is read exactly out of the values that hold its type and its
/// payload.
pub proof fn law_event_request_is_read(v: JsonView, event_type: Seq<char>, payload: JsonView)
    ensures
        registry_server::event_of(v) == Ok::<(Seq<char>, JsonView), Seq<char>>((event_type, payload)) <==> {
            &&& has_fields(v, 2)
            &&& field(v, "event_type"@, 0) == Some(JsonView::Text(event_type))
            &&& field(v, "payload"@, 1) == Some(payload)
        },
{
    if let JsonView::List(s) = v {
        assert(decode::item(s, 0) == field(v, "event_type"@, 0));
        assert(decode::item(s, 1) == field(v, "payload"@, 1));
    }
}

/// A call is read exactly out of the values that hold its version and its method. An id
/// that is `null` is none, and parameters that are not there are `null`.
pub proof fn law_call_is_read(v: JsonView, q: jsonrpc::RequestView)
    ensures
        jsonrpc::request_of(v) == Ok::<jsonrpc::RequestView, Seq<char>>(q) <==> {
            let id = field(v, "id"@, 1);
            let params = field(v, "params"@, 3);
            &&& has_fields(v, 4)
            &&& field(v, "jsonrpc"@, 0) == Some(JsonView::Text(q.jsonrpc))
            &&& field(v, "method"@, 2) == Some(JsonView::Text(q.method))
            &&& (q.id is None ==> id is None || id == Some(JsonView::Null))
            &&& (q.id is Some ==> id == q.id && q.id != Some(JsonView::Null))
            &&& (params is Some ==> q.params == params->0)
            &&& (params is None ==> q.params == JsonView::Null)
        },
{
    if let JsonView::List(s) = v {
        assert(decode::item(s, 0) == field(v, "jsonrpc"@, 0));
        assert(decode::item(s, 1) == field(v, "id"@, 1));
        assert(decode::item(s, 2) == field(v, "method"@, 2));
        assert(decode::item(s, 3) == field(v, "params"@, 3));
    }
}

/// Whether a JSON value can be read as an outcome: an object of one member, named after
/// the way the run ended, with what is known of the end in an object or in a list.
pub open spec fn reads_as_outcome(v: JsonView, o: OutcomeView) -> bool {
    let key = match o {
        OutcomeView::Success(_) => "Success"@,
        OutcomeView::Failed { .. } => "Failed"@,
        OutcomeView::Timeout { .. } => "Timeout"@,
        OutcomeView::Suspended { .. } => "Suspended"@,
    };
    v matches JsonView::Object(m) && m.dom() =~= set![key] && match o {
        OutcomeView::Success(x) => m[key] == x,
        OutcomeView::Failed { node, error } => {
            &&& field(m[key], "node"@, 0) == Some(JsonView::Text(node))
            &&& field(m[key], "error"@, 1) == Some(JsonView::Text(error))
            &&& m[key] matches JsonView::List(s) ==> s.len() == 2
        },
        OutcomeView::Timeout { node } => {
            &&& field(m[key], "node"@, 0) == Some(JsonView::Text(node))
            &&& m[key] matches JsonView::List(s) ==> s.len() == 1
        },
        OutcomeView::Suspended { workflow_id } => {
            &&& field(m[key], "workflow_id"@, 0) matches Some(JsonView::Text(s)) && ids::id_parse(s)
                == ids::read(workflow_id)
            &&& m[key] matches JsonView::List(s) ==> s.len() == 1
        },
    }
}

/// An outcome is read exactly out of the values that stand for it.
pub proof fn law_which_outcome_is_read(v: JsonView, o: OutcomeView)
    ensures
        error::outcome_of(v) == Some(o) <==> reads_as_outcome(v, o),
{
    error::lemma_tags();
    if let JsonView::Object(m) = v {
        assert(set!["Success"@].contains("Success"@));
        assert(set!["Failed"@].contains("Failed"@));
        assert(set!["Timeout"@].contains("Timeout"@));
        assert(set!["Suspended"@].contains("Suspended"@));
        assert(!set!["Success"@].contains("Failed"@));
        assert(!set!["Success"@].contains("Timeout"@));
        assert(!set!["Success"@].contains("Suspended"@));
        assert(!set!["Failed"@].contains("Timeout"@));
        assert(!set!["Failed"@].contains("Suspended"@));
        assert(!set!["Timeout"@].contains("Suspended"@));
    }
}

/// The words in which a value that does not fit is refused.
pub proof fn law_complaints(v: JsonView, want: Seq<char>, s: Seq<char>, n: nat)
    ensures
        decode::wrong_kind(JsonView::Null, want) == "invalid type: "@ + "null"@ + ", expected "@ + want,
        decode::wrong_kind(JsonView::Bool(true), want) == "invalid type: "@ + "boolean `true`"@ + ", expected "@
            + want,
        decode::wrong_kind(JsonView::Bool(false), want) == "invalid type: "@ + "boolean `false`"@ + ", expected "@
            + want,
        decode::wrong_kind(JsonView::Text(s), want) == "invalid type: "@ + ("string "@ + decode::quoted_text(s))
            + ", expected "@ + want,
        v is List ==> decode::wrong_kind(v, want) == "invalid type: "@ + "sequence"@ + ", expected "@ + want,
        v is Object ==> decode::wrong_kind(v, want) == "invalid type: "@ + "map"@ + ", expected "@ + want,
        v matches JsonView::Number(NumberView::Int(_)) ==> decode::wrong_kind(v, want) == "invalid type: "@ + (
        "integer `"@ + json::json_text(v) + "`"@) + ", expected "@ + want,
        v matches JsonView::Number(NumberView::Float(_)) ==> decode::wrong_kind(v, want) == "invalid type: "@ + (
        "floating point `"@ + json::json_text(v) + "`"@) + ", expected "@ + want,
        decode::missing(s) == "missing field `"@ + s + "`"@,
        decode::wrong_length(n, want) == "invalid length "@ + text::decimal_text(n) + ", expected "@ + want,
        decode::too_long(n) == "invalid length "@ + text::decimal_text(n) + ", expected "@
            + "fewer elements in array"@,
        !(v is Text) ==> decode::text_of(v) == Err::<Seq<char>, Seq<char>>(decode::wrong_kind(v, "a string"@)),
        !(v is List) ==> decode::texts_of(v) == Err::<Seq<Seq<char>>, Seq<char>>(
            decode::wrong_kind(v, "a sequence"@),
        ),
        !(v is Object) ==> decode::labels_of(v) == Err::<Map<Seq<char>, Seq<char>>, Seq<char>>(
            decode::wrong_kind(v, "a map"@),
        ),
        !(v is Number) ==> decode::natural_of(v) == Err::<u64, Seq<char>>(decode::wrong_kind(v, "u64"@)),
        v matches JsonView::Number(NumberView::Int(i)) ==> (i < 0 || i > u64::MAX) ==> decode::natural_of(v)
            == Err::<u64, Seq<char>>(
            "invalid value: "@ + ("integer `"@ + json::json_text(v) + "`"@) + ", expected u64"@,
        ),
        s != "invoke"@ && s != "result"@ && s != "error"@ && s != "suspended"@ ==> envelope::kind_of(s) == Err::<
            EnvelopeKind,
            Seq<char>,
        >("unknown variant `"@ + s + "`, expected one of `invoke`, `result`, `error`, `suspended`"@),
        ids::id_parse(s) matches Err(e) ==> envelope::id_in(Some(JsonView::Text(s))) == Err::<
            Option<u128>,
            Seq<char>,
        >("UUID parsing failed: "@ + e),
        !(v is Text) ==> envelope::id_in(Some(v)) == Err::<Option<u128>, Seq<char>>(
            decode::wrong_kind(v, "a UUID string"@),
        ),
{
}

/// A list is refused at its first item that does not fit.
pub proof fn law_first_complaint(s: Seq<JsonView>, k: int)
    requires
        0 <= k < s.len(),
        !(s[k] is Text),
        forall|i: int| 0 <= i < k ==> (#[trigger] s[i]) is Text,
    ensures
        decode::texts_of(JsonView::List(s)) == Err::<Seq<Seq<char>>, Seq<char>>(
            decode::wrong_kind(s[k], "a string"@),
        ),
{
    lemma_first_complaint(s, k, s.len());
}

proof fn lemma_first_complaint(s: Seq<JsonView>, k: int, n: nat)
    requires
        0 <= k < s.len(),
        n <= s.len(),
        !(s[k] is Text),
        forall|i: int| 0 <= i < k ==> (#[trigger] s[i]) is Text,
    ensures
        n <= k ==> decode::texts_upto(s, n) is Ok,
        n > k ==> decode::texts_upto(s, n) == Err::<Seq<Seq<char>>, Seq<char>>(
            decode::wrong_kind(s[k], "a string"@),
        ),
    decreases n,
{
    if n > 0 {
        lemma_first_complaint(s, k, (n - 1) as nat);
        if n <= k {
            assert(s[n - 1] is Text);
        }
    }
}

/// A message, a call and a kept plan are read out of the JSON value in their text; a
/// text that holds none is refused in the words of its reader.
pub proof fn law_values_in_texts(s: Seq<char>)
    ensures
        json::json_parse(s) matches Err(e) ==> {
            &&& transport::message_in(s) == Err::<EnvelopeView, Seq<char>>(e)
            &&& jsonrpc::message_request(s) == Err::<jsonrpc::RequestView, Seq<char>>(e)
            &&& dag::stored_dag(s) == Err::<Seq<DagNodeView>, Seq<char>>(e)
        },
        json::json_parse(s) matches Ok(v) ==> {
            &&& transport::message_in(s) == envelope::envelope_of(v)
            &&& jsonrpc::message_request(s) == jsonrpc::request_of(v)
            &&& dag::dag_of(v) is Ok ==> dag::stored_dag(s) == dag::dag_of(v)
            &&& dag::dag_of(v) matches Err(e) ==> dag::stored_dag(s) == Err::<Seq<DagNodeView>, Seq<char>>(
                "workflow error: "@ + ("invalid DAG JSON: "@ + e),
            )
        },
{
}

} // verus!

//! What the registry does with instances and tells of them, told by its entries.

use vstd::prelude::*;
use vstd::string::*;
use crate::execution_laws;
use crate::health_poller;
use crate::health_poller::{HealthView, ProbeView};
use crate::json;
use crate::json::{JsonView, NumberView};
use crate::registry_server;
use crate::registry_store;
use crate::registry_store::{AgentEventView, EntryView, RegistryStatus, RegistryView};
use crate::text;
use crate::text_map;

verus! {

/// Whether a filter lets an instance through: without a capability every one, and with
/// one those that offer it.
pub open spec fn is_let_through(e: EntryView, capability: Option<Seq<char>>) -> bool {
    capability matches Some(c) ==> exists|k: int|
        0 <= k < e.capabilities.len() && #[trigger] e.capabilities[k] == c
}

/// Whether the entry at `i` is an instance of an agent that a filter lets through.
pub open spec fn is_instance(
    entries: Seq<EntryView>,
    capability: Option<Seq<char>>,
    i: int,
    name: Seq<char>,
) -> bool {
    0 <= i < entries.len() && entries[i].name == name && is_let_through(entries[i], capability)
}

/// How many of the first `n` entries are instances of an agent that a filter lets
/// through.
pub open spec fn instances_among(
    entries: Seq<EntryView>,
    capability: Option<Seq<char>>,
    name: Seq<char>,
    n: nat,
) -> nat
    decreases n,
{
    if n == 0 {
        0
    } else {
        instances_among(entries, capability, name, (n - 1) as nat) + if is_instance(
            entries,
            capability,
            n - 1,
            name,
        ) {
            1nat
        } else {
            0nat
        }
    }
}

/// Whether an agent has an instance of this health among those that a filter lets
/// through.
pub open spec fn has_instance(
    entries: Seq<EntryView>,
    capability: Option<Seq<char>>,
    name: Seq<char>,
    status: RegistryStatus,
) -> bool {
    exists|i: int| #[trigger] is_instance(entries, capability, i, name) && entries[i].status == status
}

/// What is told of an agent: its name, the number of its instances, and its health. It
/// is healthy exactly where one of its instances is, and unhealthy exactly where all of
/// them are; otherwise its health is unknown.
pub open spec fn tells_of(
    entries: Seq<EntryView>,
    capability: Option<Seq<char>>,
    name: Seq<char>,
    count: int,
    status: Seq<char>,
) -> bool {
    &&& count == instances_among(entries, capability, name, entries.len())
    &&& status == "healthy"@ <==> has_instance(entries, capability, name, RegistryStatus::Healthy)
    &&& status == "unhealthy"@ <==> forall|i: int| #[trigger]
        is_instance(entries, capability, i, name) ==> entries[i].status == RegistryStatus::Unhealthy
    &&& status == "healthy"@ || status == "unhealthy"@ || status == "unknown"@
}

/// Whether a JSON value tells of an agent, and of nothing else.
pub open spec fn row_tells_of(
    entries: Seq<EntryView>,
    capability: Option<Seq<char>>,
    row: JsonView,
    name: Seq<char>,
) -> bool {
    &&& row matches JsonView::Object(m)
    &&& forall|k: Seq<char>| #[trigger]
        (row->Object_0).dom().contains(k) <==> k == "name"@ || k == "instance_count"@ || k == "status"@
    &&& json::member(row, "name"@) == Some(JsonView::Text(name))
    &&& json::member(row, "instance_count"@) matches Some(JsonView::Number(NumberView::Int(count)))
    &&& json::member(row, "status"@) matches Some(JsonView::Text(status))
    &&& tells_of(entries, capability, name, count, status)
}

/// Whether a JSON value lists the agents that have an instance which a filter lets
/// through: each once, in the order of their names, and no others.
pub open spec fn lists_agents(entries: Seq<EntryView>, capability: Option<Seq<char>>, v: JsonView) -> bool {
    v matches JsonView::List(rows) && exists|names: Seq<Seq<char>>|
        {
            &&& names.len() == rows.len()
            &&& #[trigger] in_order(names)
            &&& forall|i: int| 0 <= i < rows.len() ==> row_tells_of(entries, capability, #[trigger] rows[i], names[i])
            &&& forall|i: int| 0 <= i < names.len() ==> is_there(entries, capability, #[trigger] names[i])
            &&& forall|x: Seq<char>| #[trigger] is_there(entries, capability, x) ==> names.contains(x)
        }
}

/// Whether an agent has an instance that a filter lets through.
pub open spec fn is_there(entries: Seq<EntryView>, capability: Option<Seq<char>>, name: Seq<char>) -> bool {
    exists|i: int| #[trigger] is_instance(entries, capability, i, name)
}

/// Whether texts stand in ascending order, each once.
pub open spec fn in_order(s: Seq<Seq<char>>) -> bool {
    forall|i: int, j: int| 0 <= i < j < s.len() ==> text::lex_lt(#[trigger] s[i], #[trigger] s[j])
}

proof fn lemma_admitted(entries: Seq<EntryView>, capability: Option<Seq<char>>, e: EntryView)
    ensures
        registry_server::admitted(entries, capability).contains(e) <==> entries.contains(e) && is_let_through(
            e,
            capability,
        ),
{
    match capability {
        Some(c) => {
            let p = |e: EntryView| e.capabilities.contains(c);
            let kept = entries.filter(p);
            assert(p(e) <==> is_let_through(e, capability)) by {
                if p(e) {
                    let k = choose|k: int| 0 <= k < e.capabilities.len() && e.capabilities[k] == c;
                    assert(e.capabilities[k] == c);
                }
            }
            if kept.contains(e) {
                let k = choose|k: int| 0 <= k < kept.len() && kept[k] == e;
                entries.lemma_filter_pred(p, k);
                entries.lemma_filter_contains_rev(p, e);
            }
            if entries.contains(e) && p(e) {
                let k = choose|k: int| 0 <= k < entries.len() && entries[k] == e;
                entries.lemma_filter_contains(p, k);
            }
        },
        None => {},
    }
}

proof fn lemma_counted(entries: Seq<EntryView>, capability: Option<Seq<char>>, name: Seq<char>)
    ensures
        registry_server::admitted(entries, capability).filter(|e: EntryView| e.name == name).len()
            == instances_among(entries, capability, name, entries.len()),
    decreases entries.len(),
{
    reveal(Seq::filter);
    let p = |e: EntryView| e.name == name;
    if entries.len() == 0 {
        assert(registry_server::admitted(entries, capability) =~= Seq::empty());
    } else {
        let t = entries.drop_last();
        let e = entries.last();
        lemma_counted(t, capability, name);
        lemma_counted_before(entries, capability, name, t.len());
        let a = registry_server::admitted(t, capability);
        let b = registry_server::admitted(entries, capability);
        assert(entries[entries.len() - 1] == e);
        match capability {
            Some(c) => {
                assert(e.capabilities.contains(c) <==> is_let_through(e, capability)) by {
                    if e.capabilities.contains(c) {
                        let k = choose|k: int| 0 <= k < e.capabilities.len() && e.capabilities[k] == c;
                        assert(e.capabilities[k] == c);
                    }
                }
            },
            None => {
                assert(t.push(e) =~= entries);
            },
        }
        if is_let_through(e, capability) {
            assert(b == a.push(e));
            assert(b.drop_last() =~= a);
        } else {
            assert(b == a);
        }
    }
}

proof fn lemma_counted_before(entries: Seq<EntryView>, capability: Option<Seq<char>>, name: Seq<char>, n: nat)
    requires
        n < entries.len(),
    ensures
        instances_among(entries.drop_last(), capability, name, n) == instances_among(
            entries,
            capability,
            name,
            n,
        ),
    decreases n,
{
    if n > 0 {
        lemma_counted_before(entries, capability, name, (n - 1) as nat);
        assert(entries.drop_last()[n - 1] == entries[n - 1]);
    }
}

/// The summary of an agent that is there tells of it.
pub proof fn lemma_summary(entries: Seq<EntryView>, capability: Option<Seq<char>>, name: Seq<char>)
    ensures
        ({
            let v = registry_server::summary_of(registry_server::admitted(entries, capability), name);
            v.name == name && (is_there(entries, capability, name) ==> tells_of(
                entries,
                capability,
                name,
                v.instance_count as int,
                v.status,
            ))
        }),
        registry_server::is_named(registry_server::admitted(entries, capability), name) <==> is_there(
            entries,
            capability,
            name,
        ),
{
    let a = registry_server::admitted(entries, capability);
    lemma_counted(entries, capability, name);
    reveal_strlit("healthy");
    reveal_strlit("unhealthy");
    reveal_strlit("unknown");
    assert("healthy"@.len() == 7 && "unhealthy"@.len() == 9 && "unknown"@.len() == 7);
    assert("healthy"@[0] == 'h' && "unknown"@[0] == 'u');
    assert forall|i: int| 0 <= i < a.len() implies is_there_as(entries, capability, #[trigger] a[i]) by {
        assert(a.contains(a[i]));
        lemma_admitted(entries, capability, a[i]);
        let k = choose|k: int| 0 <= k < entries.len() && entries[k] == a[i];
        assert(is_instance(entries, capability, k, a[i].name));
    }
    assert forall|i: int| #[trigger] is_instance(entries, capability, i, name) implies exists|k: int|
        0 <= k < a.len() && #[trigger] a[k] == entries[i] by {
        assert(entries.contains(entries[i]));
        lemma_admitted(entries, capability, entries[i]);
        let k = choose|k: int| 0 <= k < a.len() && a[k] == entries[i];
        assert(a[k] == entries[i]);
    }
    assert forall|s: RegistryStatus| #[trigger]
        registry_server::some_instance(a, name, s) <==> has_instance(entries, capability, name, s) by {
        if registry_server::some_instance(a, name, s) {
            let i = choose|i: int| 0 <= i < a.len() && (#[trigger] a[i]).name == name && a[i].status == s;
            assert(is_there_as(entries, capability, a[i]));
        }
        if has_instance(entries, capability, name, s) {
            let i = choose|i: int|
                #[trigger] is_instance(entries, capability, i, name) && entries[i].status == s;
            let k = choose|k: int| 0 <= k < a.len() && #[trigger] a[k] == entries[i];
            assert(a[k].name == name && a[k].status == s);
        }
    }
    assert(registry_server::some_instance(a, name, RegistryStatus::Healthy) <==> has_instance(
        entries,
        capability,
        name,
        RegistryStatus::Healthy,
    ));
    assert(registry_server::some_instance(a, name, RegistryStatus::Unknown) <==> has_instance(
        entries,
        capability,
        name,
        RegistryStatus::Unknown,
    ));
    if registry_server::is_named(a, name) {
        let i = choose|i: int| 0 <= i < a.len() && (#[trigger] a[i]).name == name;
        assert(is_there_as(entries, capability, a[i]));
        let k = choose|k: int|
            #[trigger] is_instance(entries, capability, k, a[i].name) && entries[k] == a[i];
        assert(is_instance(entries, capability, k, name));
    }
    if is_there(entries, capability, name) {
        let i = choose|i: int| #[trigger] is_instance(entries, capability, i, name);
        let k = choose|k: int| 0 <= k < a.len() && #[trigger] a[k] == entries[i];
        assert(a[k].name == name);
        if !has_instance(entries, capability, name, RegistryStatus::Healthy) && !has_instance(
            entries,
            capability,
            name,
            RegistryStatus::Unknown,
        ) {
            assert forall|j: int| #[trigger] is_instance(entries, capability, j, name) implies entries[j].status
                == RegistryStatus::Unhealthy by {}
        } else if has_instance(entries, capability, name, RegistryStatus::Healthy) {
            let j = choose|j: int|
                #[trigger] is_instance(entries, capability, j, name) && entries[j].status
                    == RegistryStatus::Healthy;
            assert(is_instance(entries, capability, j, name));
        } else {
            let j = choose|j: int|
                #[trigger] is_instance(entries, capability, j, name) && entries[j].status
                    == RegistryStatus::Unknown;
            assert(is_instance(entries, capability, j, name));
        }
    }
}

spec fn is_there_as(entries: Seq<EntryView>, capability: Option<Seq<char>>, e: EntryView) -> bool {
    exists|k: int| #[trigger] is_instance(entries, capability, k, e.name) && entries[k] == e
}

/// The listed row of an agent tells of it.
pub proof fn lemma_summary_row(entries: Seq<EntryView>, capability: Option<Seq<char>>, name: Seq<char>)
    requires
        is_there(entries, capability, name),
    ensures
        row_tells_of(
            entries,
            capability,
            registry_server::summary_json(
                registry_server::summary_of(registry_server::admitted(entries, capability), name),
            ),
            name,
        ),
{
    lemma_summary(entries, capability, name);
    reveal_strlit("name");
    reveal_strlit("instance_count");
    reveal_strlit("status");
    assert("name"@.len() == 4 && "instance_count"@.len() == 14 && "status"@.len() == 6);
}

/// The list of agents tells of every agent that has an instance which the filter lets
/// through, and of no other, whatever is registered.
pub proof fn law_agents_are_listed(entries: Seq<EntryView>, capability: Option<Seq<char>>, names: Seq<Seq<char>>, rows: Seq<JsonView>)
    requires
        text_map::ascending(names),
        names.len() == rows.len(),
        forall|x: Seq<char>| #[trigger]
            names.contains(x) <==> registry_server::is_named(
                registry_server::admitted(entries, capability),
                x,
            ),
        forall|i: int|
            0 <= i < rows.len() ==> #[trigger] rows[i] == registry_server::summary_json(
                registry_server::summary_of(registry_server::admitted(entries, capability), names[i]),
            ),
    ensures
        lists_agents(entries, capability, JsonView::List(rows)),
{
    assert forall|i: int| 0 <= i < names.len() implies is_there(entries, capability, #[trigger] names[i]) by {
        assert(names.contains(names[i]));
        lemma_summary(entries, capability, names[i]);
    }
    assert forall|i: int| 0 <= i < rows.len() implies row_tells_of(entries, capability, #[trigger] rows[i], names[i]) by {
        assert(is_there(entries, capability, names[i]));
        lemma_summary_row(entries, capability, names[i]);
    }
    assert forall|x: Seq<char>| #[trigger] is_there(entries, capability, x) implies names.contains(x) by {
        lemma_summary(entries, capability, x);
    }
    assert(in_order(names));
}

/// A registered instance stands last, as it was registered, of unknown health and not
/// looked at yet. Those with its id or its address are gone, with their events; all
/// others stay as they were, in their order, with their events.
pub proof fn law_registration(v: RegistryView, e: EntryView)
    ensures
        ({
            let r = v.registered(e);
            let gone = |x: EntryView| x.instance_id == e.instance_id || x.http_url == e.http_url;
            let lost = |id: Seq<char>|
                exists|i: int|
                    0 <= i < v.entries.len() && (#[trigger] v.entries[i]).instance_id == id && (
                    v.entries[i].instance_id == e.instance_id || v.entries[i].http_url == e.http_url);
            &&& r.entries.len() > 0
            &&& r.entries.last().instance_id == e.instance_id
            &&& r.entries.last().name == e.name
            &&& r.entries.last().http_url == e.http_url
            &&& r.entries.last().capabilities == e.capabilities
            &&& r.entries.last().metadata == e.metadata
            &&& r.entries.last().registered_at == e.registered_at
            &&& r.entries.last().last_health_check is None
            &&& r.entries.last().status == RegistryStatus::Unknown
            &&& r.entries.drop_last() == v.entries.filter(|x: EntryView| !gone(x))
            &&& r.events == v.events.filter(|x: AgentEventView| !lost(x.instance_id))
        }),
{
    let r = v.registered(e);
    let gone = |x: EntryView| x.instance_id == e.instance_id || x.http_url == e.http_url;
    let lost = |id: Seq<char>|
        exists|i: int|
            0 <= i < v.entries.len() && (#[trigger] v.entries[i]).instance_id == id && (
            v.entries[i].instance_id == e.instance_id || v.entries[i].http_url == e.http_url);
    let p = |x: EntryView| !RegistryView::displaces(x, e.instance_id, e.http_url);
    let q = |x: AgentEventView| !v.is_displaced(x.instance_id, e.instance_id, e.http_url);
    assert(p =~= |x: EntryView| !gone(x));
    assert forall|x: AgentEventView| q(x) == !lost(x.instance_id) by {
        if v.is_displaced(x.instance_id, e.instance_id, e.http_url) {
            let i = choose|i: int|
                0 <= i < v.entries.len() && (#[trigger] v.entries[i]).instance_id == x.instance_id
                    && RegistryView::displaces(v.entries[i], e.instance_id, e.http_url);
            assert(v.entries[i].instance_id == x.instance_id);
        }
        if lost(x.instance_id) {
            let i = choose|i: int|
                0 <= i < v.entries.len() && (#[trigger] v.entries[i]).instance_id == x.instance_id && (
                v.entries[i].instance_id == e.instance_id || v.entries[i].http_url == e.http_url);
            assert(RegistryView::displaces(v.entries[i], e.instance_id, e.http_url));
        }
    }
    assert(q =~= |x: AgentEventView| !lost(x.instance_id));
    assert(r.entries.drop_last() =~= v.entries.filter(p));
}

/// The instance that a registration puts out is the first at the same address under
/// another id, and there is none where there is no such instance.
pub proof fn law_put_out(v: RegistryView, e: EntryView)
    ensures
        match v.put_out(e) {
            Some(x) => x.http_url == e.http_url && x.instance_id != e.instance_id && v.entries.contains(x),
            None => forall|i: int|
                0 <= i < v.entries.len() && (#[trigger] v.entries[i]).http_url == e.http_url
                    ==> v.entries[i].instance_id == e.instance_id,
        },
{
    let p = |x: EntryView| x.http_url == e.http_url && x.instance_id != e.instance_id;
    execution_laws::lemma_first_is(v.entries, p);
    if v.put_out(e) is None {
        assert forall|i: int| 0 <= i < v.entries.len() && (#[trigger] v.entries[i]).http_url == e.http_url implies v.entries[i].instance_id
            == e.instance_id by {
            assert(!p(v.entries[i]));
        }
    }
}

/// A deregistration takes out the instances with its id and their events, and leaves
/// all others as they were, in their order.
pub proof fn law_deregistration(v: RegistryView, id: Seq<char>)
    ensures
        v.has(id) <==> exists|i: int| 0 <= i < v.entries.len() && (#[trigger] v.entries[i]).instance_id == id,
        v.deregistered(id).entries == v.entries.filter(|x: EntryView| x.instance_id != id),
        v.has(id) ==> v.deregistered(id).events == v.events.filter(
            |x: AgentEventView| x.instance_id != id,
        ),
        !v.has(id) ==> v.deregistered(id) == v,
{
    if !v.has(id) {
        execution_laws::lemma_all_kept(v.entries, |x: EntryView| x.instance_id != id);
    }
}

/// A look at an instance enters what it has shown and when, at the instances with its
/// id, and changes nothing else.
pub proof fn law_look(v: RegistryView, id: Seq<char>, status: RegistryStatus, at: Seq<char>)
    ensures
        ({
            let r = v.checked(id, status, at);
            &&& r.events == v.events
            &&& r.entries.len() == v.entries.len()
            &&& forall|i: int|
                0 <= i < v.entries.len() ==> {
                    let x = #[trigger] v.entries[i];
                    let y = r.entries[i];
                    &&& y.instance_id == x.instance_id
                    &&& y.name == x.name
                    &&& y.http_url == x.http_url
                    &&& y.capabilities == x.capabilities
                    &&& y.metadata == x.metadata
                    &&& y.registered_at == x.registered_at
                    &&& x.instance_id == id ==> y.status == status && y.last_health_check == Some(at)
                    &&& x.instance_id != id ==> y == x
                }
        }),
{
}

/// The instances of an agent are those of its name, in their order; one of them is
/// shown where it has the id that is asked for.
pub proof fn law_instances_of_an_agent(v: RegistryView, name: Seq<char>, id: Seq<char>)
    ensures
        forall|e: EntryView| #[trigger]
            v.named(name).contains(e) <==> v.entries.contains(e) && e.name == name,
        v.named(name) == v.entries.filter(|e: EntryView| e.name == name),
        match registry_server::instance_of(v, name, id) {
            Some(e) => v.entries.contains(e) && e.name == name && e.instance_id == id,
            None => forall|i: int|
                0 <= i < v.entries.len() && (#[trigger] v.entries[i]).name == name ==> v.entries[i].instance_id
                    != id,
        },
{
    let p = |e: EntryView| e.name == name;
    let q = |e: EntryView| e.instance_id == id;
    let s = v.named(name);
    assert forall|e: EntryView| #[trigger] s.contains(e) <==> v.entries.contains(e) && e.name == name by {
        if s.contains(e) {
            let k = choose|k: int| 0 <= k < s.len() && s[k] == e;
            v.entries.lemma_filter_pred(p, k);
            v.entries.lemma_filter_contains_rev(p, e);
        }
        if v.entries.contains(e) && e.name == name {
            let k = choose|k: int| 0 <= k < v.entries.len() && v.entries[k] == e;
            v.entries.lemma_filter_contains(p, k);
        }
    }
    execution_laws::lemma_first_is(s, q);
    if registry_server::instance_of(v, name, id) is None {
        assert forall|i: int| 0 <= i < v.entries.len() && (#[trigger] v.entries[i]).name == name implies v.entries[i].instance_id
            != id by {
            assert(v.entries.contains(v.entries[i]));
            assert(s.contains(v.entries[i]));
            let k = choose|k: int| 0 <= k < s.len() && s[k] == v.entries[i];
            assert(!q(s[k]));
        }
    }
}

/// What is shown of an instance: each of its fields under its name, the time of the
/// last look as `null` where there was none, its health in a word, and nothing else.
pub proof fn law_shown_instance(e: EntryView, i: int, k: Seq<char>)
    ensures
        ({
            let v = registry_server::entry_json(e);
            let capabilities = json::member(v, "capabilities"@);
            let metadata = json::member(v, "metadata"@);
            &&& json::member(v, "instance_id"@) == Some(JsonView::Text(e.instance_id))
            &&& json::member(v, "name"@) == Some(JsonView::Text(e.name))
            &&& json::member(v, "http_url"@) == Some(JsonView::Text(e.http_url))
            &&& json::member(v, "registered_at"@) == Some(JsonView::Text(e.registered_at))
            &&& json::member(v, "last_health_check"@) == Some(
                match e.last_health_check {
                    Some(t) => JsonView::Text(t),
                    None => JsonView::Null,
                },
            )
            &&& json::member(v, "status"@) == Some(
                JsonView::Text(
                    match e.status {
                        RegistryStatus::Unknown => "unknown"@,
                        RegistryStatus::Healthy => "healthy"@,
                        RegistryStatus::Unhealthy => "unhealthy"@,
                    },
                ),
            )
            &&& capabilities is Some && capabilities->0 is List && (capabilities->0->List_0).len()
                == e.capabilities.len() && (0 <= i < e.capabilities.len() ==> (capabilities->0->List_0)[i]
                == JsonView::Text(e.capabilities[i]))
            &&& metadata is Some && metadata->0 is Object && (json::member(metadata->0, k) is Some
                <==> e.metadata.dom().contains(k)) && (e.metadata.dom().contains(k) ==> json::member(
                metadata->0,
                k,
            ) == Some(JsonView::Text(e.metadata[k])))
            &&& json::member(v, k) is Some ==> k == "instance_id"@ || k == "name"@ || k == "http_url"@ || k
                == "registered_at"@ || k == "last_health_check"@ || k == "status"@ || k == "capabilities"@ || k
                == "metadata"@
        }),
{
    reveal_strlit("instance_id");
    reveal_strlit("name");
    reveal_strlit("http_url");
    reveal_strlit("registered_at");
    reveal_strlit("last_health_check");
    reveal_strlit("status");
    reveal_strlit("capabilities");
    reveal_strlit("metadata");
    assert("instance_id"@.len() == 11 && "name"@.len() == 4 && "http_url"@.len() == 8 && "registered_at"@.len()
        == 13 && "last_health_check"@.len() == 17 && "status"@.len() == 6 && "capabilities"@.len() == 12
        && "metadata"@.len() == 8);
    assert("http_url"@[0] == 'h' && "metadata"@[0] == 'm');
}

/// The instances of an agent are shown one by one, in their order.
pub proof fn law_shown_instances(s: Seq<EntryView>, i: int)
    ensures
        registry_server::entries_json(s) matches JsonView::List(rows) && rows.len() == s.len() && (0 <= i
            < s.len() ==> rows[i] == registry_server::entry_json(s[i])),
{
}

/// A refusal is told under `error`, and nothing else is.
pub proof fn law_refusal(status: u16, error: Seq<char>, k: Seq<char>)
    ensures
        ({
            let r = registry_server::error_reply(status, error);
            &&& r.status == status
            &&& r.body is Some && json::member(r.body->0, "error"@) == Some(JsonView::Text(error))
            &&& json::member(r.body->0, k) is Some ==> k == "error"@
        }),
{
}

/// The health of an instance after a look at it. A good look makes it healthy at once
/// and starts the count anew. A bad one counts: below the threshold nothing is entered,
/// and from the threshold on the instance is unhealthy. Each entry bears the time of
/// the look, and a look at one instance counts for no other.
pub proof fn law_one_look(v: HealthView, threshold: usize, p: ProbeView, other: Seq<char>)
    requires
        other != p.instance_id,
        health_poller::failures_of(v.failures, p.instance_id) < usize::MAX,
    ensures
        ({
            let r = v.after(threshold, p);
            let before = if v.failures.dom().contains(p.instance_id) {
                v.failures[p.instance_id] as int
            } else {
                0
            };
            let now = if r.failures.dom().contains(p.instance_id) {
                r.failures[p.instance_id] as int
            } else {
                0
            };
            &&& now == if p.ok {
                0
            } else {
                before + 1
            }
            &&& r.failures.dom().contains(other) <==> v.failures.dom().contains(other)
            &&& r.failures[other] == v.failures[other]
            &&& r.store.events == v.store.events
            &&& r.store.entries.len() == v.store.entries.len()
            &&& forall|i: int|
                0 <= i < v.store.entries.len() ==> {
                    let x = #[trigger] v.store.entries[i];
                    let y = r.store.entries[i];
                    if x.instance_id == p.instance_id && (p.ok || before + 1 >= threshold) {
                        &&& y == (EntryView {
                            status: y.status,
                            last_health_check: Some(p.at),
                            ..x
                        })
                        &&& y.status == if p.ok {
                            RegistryStatus::Healthy
                        } else {
                            RegistryStatus::Unhealthy
                        }
                    } else {
                        y == x
                    }
                }
        }),
{
}

/// A round of looks is taken in one by one, in its order, none left out.
pub proof fn law_round_of_looks(v: HealthView, threshold: usize, probes: Seq<ProbeView>, n: nat)
    requires
        n < probes.len(),
    ensures
        v.after_all(threshold, probes, 0) == v,
        v.after_all(threshold, probes, n + 1) == v.after_all(threshold, probes, n).after(
            threshold,
            probes[n as int],
        ),
{
}

/// How often in a row, at the end of looks, an instance was found failing.
pub open spec fn failing_at_the_end(probes: Seq<ProbeView>, id: Seq<char>, n: nat, before: int) -> int
    decreases n,
{
    if n == 0 {
        before
    } else if probes[n - 1].instance_id != id {
        failing_at_the_end(probes, id, (n - 1) as nat, before)
    } else if probes[n - 1].ok {
        0
    } else {
        failing_at_the_end(probes, id, (n - 1) as nat, before) + 1
    }
}

/// Whatever looks are taken in, and however those at different instances are mixed,
/// what counts against an instance is how often in a row it was found failing at last.
pub proof fn law_only_failures_in_a_row_count(
    v: HealthView,
    threshold: usize,
    probes: Seq<ProbeView>,
    n: nat,
    id: Seq<char>,
)
    requires
        n <= probes.len(),
        forall|x: Seq<char>| #[trigger] health_poller::failures_of(v.failures, x) + probes.len() <= usize::MAX,
    ensures
        health_poller::failures_of(v.after_all(threshold, probes, n).failures, id) == failing_at_the_end(
            probes,
            id,
            n,
            health_poller::failures_of(v.failures, id) as int,
        ),
        health_poller::failures_of(v.after_all(threshold, probes, n).failures, id)
            <= health_poller::failures_of(v.failures, id) + n,
    decreases n,
{
    if n > 0 {
        law_only_failures_in_a_row_count(v, threshold, probes, (n - 1) as nat, id);
        law_only_failures_in_a_row_count(v, threshold, probes, (n - 1) as nat, probes[n - 1].instance_id);
        assert(health_poller::failures_of(v.failures, id) + probes.len() <= usize::MAX);
        assert(health_poller::failures_of(v.failures, probes[n - 1].instance_id) + probes.len() <= usize::MAX);
    }
}

/// An instance is unhealthy from the third failing look in a row.
pub proof fn law_three_failures_in_a_row()
    ensures
        health_poller::FAILURE_THRESHOLD == 3,
{
}

/// What is stored of capabilities and labels is read back where the text is a list of
/// strings, or an object of strings; any other text stands for none.
pub proof fn law_stored_texts(s: Seq<char>, k: Seq<char>)
    ensures
        !(json::json_parse(s) matches Ok(JsonView::List(_))) ==> registry_store::stored_capabilities(s).len() == 0,
        !(json::json_parse(s) matches Ok(JsonView::Object(_))) ==> !registry_store::stored_labels(s).dom().contains(k),
{
}

} // verus!

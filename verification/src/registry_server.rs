//! The registry as a service: what each request is answered.

use vstd::prelude::*;
use crate::dag;
use crate::decode;
use crate::error::ErrorView;
use crate::execution_store;
use crate::ids;
use crate::json;
use crate::json::{Json, JsonView, NumberView};
use crate::registry_laws;
use crate::registry_store;
use crate::registry_store::{
    AgentEventView, EntryView, RegistrationEntry, RegistryStatus, RegistryStore, RegistryView,
};
use crate::supervisor;
use crate::text;
use crate::text_map;
use crate::text_map::TextMap;

verus! {

/// An instance that wants to be registered.
#[derive(Debug, PartialEq, Eq)]
pub struct RegisterRequest {
    pub name: String,
    pub http_url: String,
    pub capabilities: Vec<String>,
    pub metadata: TextMap<String>,
}

/// What a registered instance is told.
#[derive(Debug, PartialEq, Eq)]
pub struct RegisterResponse {
    pub instance_id: String,
    pub poll_interval_secs: u64,
}

/// An event that an instance reports.
#[derive(Debug, PartialEq)]
pub struct EventRequest {
    pub event_type: String,
    pub payload: Json,
}

/// Which agents to list.
#[derive(Debug, PartialEq, Eq)]
pub struct CapabilityFilter {
    pub capability: Option<String>,
}

/// An agent with the number and the health of its instances.
#[derive(Debug, PartialEq, Eq)]
pub struct AgentSummary {
    pub name: String,
    pub instance_count: usize,
    pub status: String,
}

/// An answer: an HTTP status, and a body where there is one.
#[derive(Debug, PartialEq)]
pub struct HttpReply {
    pub status: u16,
    pub body: Option<Json>,
}

/// An `HttpReply` as a mathematical value.
pub struct ReplyView {
    pub status: u16,
    pub body: Option<JsonView>,
}

impl View for HttpReply {
    type V = ReplyView;

    open spec fn view(&self) -> ReplyView {
        ReplyView {
            status: self.status,
            body: match self.body {
                Some(v) => Some(v@),
                None => None,
            },
        }
    }
}

/// A `RegisterRequest` as a mathematical value.
#[verifier::ext_equal]
pub struct RegisterView {
    pub name: Seq<char>,
    pub http_url: Seq<char>,
    pub capabilities: Seq<Seq<char>>,
    pub metadata: Map<Seq<char>, Seq<char>>,
}

impl View for RegisterRequest {
    type V = RegisterView;

    open spec fn view(&self) -> RegisterView {
        RegisterView {
            name: self.name@,
            http_url: self.http_url@,
            capabilities: text::strs(self.capabilities@),
            metadata: decode::labels(self.metadata@),
        }
    }
}

/// The strings in a field, where there is such a field.
pub open spec fn capabilities_in(o: Option<JsonView>) -> Result<Option<Seq<Seq<char>>>, Seq<char>> {
    match o {
        None => Ok(None),
        Some(x) => match decode::texts_of(x) {
            Ok(t) => Ok(Some(t)),
            Err(e) => Err(e),
        },
    }
}

/// The request that an object stands for, or the complaint about the object.
pub open spec fn register_by_name(v: JsonView) -> Result<RegisterView, Seq<char>> {
    match (
        capabilities_in(json::member(v, "capabilities"@)),
        decode::text_in(json::member(v, "http_url"@)),
        decode::labels_in(json::member(v, "metadata"@)),
        decode::text_in(json::member(v, "name"@)),
    ) {
        (Err(e), _, _, _) => Err(e),
        (_, Err(e), _, _) => Err(e),
        (_, _, Err(e), _) => Err(e),
        (_, _, _, Err(e)) => Err(e),
        (_, _, _, Ok(None)) => Err(decode::missing("name"@)),
        (_, Ok(None), _, _) => Err(decode::missing("http_url"@)),
        (Ok(None), _, _, _) => Err(decode::missing("capabilities"@)),
        (Ok(Some(capabilities)), Ok(Some(http_url)), Ok(metadata), Ok(Some(name))) => Ok(
            RegisterView { name, http_url, capabilities, metadata },
        ),
    }
}

/// The request whose fields a list gives in their order, or the complaint about the
/// list.
pub open spec fn register_in_order(s: Seq<JsonView>) -> Result<RegisterView, Seq<char>> {
    let want = "struct RegisterRequest with 4 elements"@;
    match (
        decode::text_in(decode::item(s, 0)),
        decode::text_in(decode::item(s, 1)),
        capabilities_in(decode::item(s, 2)),
        decode::labels_in(decode::item(s, 3)),
    ) {
        (Err(e), _, _, _) => Err(e),
        (Ok(None), _, _, _) => Err(decode::wrong_length(0, want)),
        (_, Err(e), _, _) => Err(e),
        (_, Ok(None), _, _) => Err(decode::wrong_length(1, want)),
        (_, _, Err(e), _) => Err(e),
        (_, _, Ok(None), _) => Err(decode::wrong_length(2, want)),
        (_, _, _, Err(e)) => Err(e),
        (Ok(Some(name)), Ok(Some(http_url)), Ok(Some(capabilities)), Ok(metadata)) => if s.len() > 4 {
            Err(decode::too_long(s.len()))
        } else {
            Ok(RegisterView { name, http_url, capabilities, metadata })
        },
    }
}

/// The request that a JSON value stands for, or the complaint about the value.
pub open spec fn register_of(v: JsonView) -> Result<RegisterView, Seq<char>> {
    match v {
        JsonView::Object(_) => register_by_name(v),
        JsonView::List(s) => register_in_order(s),
        _ => Err(decode::wrong_kind(v, "struct RegisterRequest"@)),
    }
}

/// See `capabilities_in`.
fn read_capabilities(o: Option<&Json>) -> (r: Result<Option<Vec<String>>, String>)
    ensures
        match r {
            Ok(Some(t)) => capabilities_in(decode::seen(o)) == Ok::<Option<Seq<Seq<char>>>, Seq<char>>(
                Some(text::strs(t@)),
            ),
            Ok(None) => capabilities_in(decode::seen(o)) == Ok::<Option<Seq<Seq<char>>>, Seq<char>>(None),
            Err(e) => capabilities_in(decode::seen(o)) == Err::<Option<Seq<Seq<char>>>, Seq<char>>(e@),
        },
{
    match o {
        None => Ok(None),
        Some(x) => match decode::texts(x) {
            Ok(t) => Ok(Some(t)),
            Err(e) => Err(e),
        },
    }
}

/// See `register_in_order`.
fn read_register_in_order(v: &Vec<Json>) -> (r: Result<RegisterRequest, String>)
    ensures
        match r {
            Ok(q) => register_in_order(decode::items(v@)) == Ok::<RegisterView, Seq<char>>(q@),
            Err(e) => register_in_order(decode::items(v@)) == Err::<RegisterView, Seq<char>>(e@),
        },
{
    let want = "struct RegisterRequest with 4 elements";
    let name = match decode::text_field(decode::at(v, 0)) {
        Ok(Some(s)) => s,
        Ok(None) => return Err(decode::complain_length(0, want)),
        Err(e) => return Err(e),
    };
    let http_url = match decode::text_field(decode::at(v, 1)) {
        Ok(Some(s)) => s,
        Ok(None) => return Err(decode::complain_length(1, want)),
        Err(e) => return Err(e),
    };
    let capabilities = match read_capabilities(decode::at(v, 2)) {
        Ok(Some(t)) => t,
        Ok(None) => return Err(decode::complain_length(2, want)),
        Err(e) => return Err(e),
    };
    let metadata = match decode::labels_field(decode::at(v, 3)) {
        Ok(m) => m,
        Err(e) => return Err(e),
    };
    if v.len() > 4 {
        return Err(decode::complain_length(v.len(), "fewer elements in array"));
    }
    Ok(RegisterRequest { name, http_url, capabilities, metadata })
}

impl RegisterRequest {
    /// Read a request out of a JSON value.
    pub fn from_json(v: &Json) -> (r: Result<RegisterRequest, String>)
        ensures
            match r {
                Ok(q) => register_of(v@) == Ok::<RegisterView, Seq<char>>(q@),
                Err(e) => register_of(v@) == Err::<RegisterView, Seq<char>>(e@),
            },
    {
        match v {
            Json::Object(_) => {},
            Json::List(items) => {
                proof {
                    json::lemma_list_view(*items);
                }
                return read_register_in_order(items);
            },
            _ => {
                return Err(decode::complain(v, "struct RegisterRequest"));
            },
        }
        let capabilities = match read_capabilities(v.get("capabilities")) {
            Ok(t) => t,
            Err(e) => return Err(e),
        };
        let http_url = match decode::text_field(v.get("http_url")) {
            Ok(s) => s,
            Err(e) => return Err(e),
        };
        let metadata = match decode::labels_field(v.get("metadata")) {
            Ok(m) => m,
            Err(e) => return Err(e),
        };
        let name = match decode::text_field(v.get("name")) {
            Ok(s) => s,
            Err(e) => return Err(e),
        };
        let name = match name {
            Some(s) => s,
            None => return Err(decode::complain_missing("name")),
        };
        let http_url = match http_url {
            Some(s) => s,
            None => return Err(decode::complain_missing("http_url")),
        };
        let capabilities = match capabilities {
            Some(t) => t,
            None => return Err(decode::complain_missing("capabilities")),
        };
        Ok(RegisterRequest { name, http_url, capabilities, metadata })
    }
}

/// An event and its payload out of a JSON value, or the complaint about the value.
pub open spec fn event_of(v: JsonView) -> Result<(Seq<char>, JsonView), Seq<char>> {
    match v {
        JsonView::Object(_) => match (
            decode::text_in(json::member(v, "event_type"@)),
            json::member(v, "payload"@),
        ) {
            (Err(e), _) => Err(e),
            (Ok(None), _) => Err(decode::missing("event_type"@)),
            (_, None) => Err(decode::missing("payload"@)),
            (Ok(Some(event_type)), Some(payload)) => Ok((event_type, payload)),
        },
        JsonView::List(s) => match (decode::text_in(decode::item(s, 0)), decode::item(s, 1)) {
            (Err(e), _) => Err(e),
            (Ok(None), _) => Err(decode::wrong_length(0, "struct EventRequest with 2 elements"@)),
            (_, None) => Err(decode::wrong_length(1, "struct EventRequest with 2 elements"@)),
            (Ok(Some(event_type)), Some(payload)) => if s.len() > 2 {
                Err(decode::too_long(s.len()))
            } else {
                Ok((event_type, payload))
            },
        },
        _ => Err(decode::wrong_kind(v, "struct EventRequest"@)),
    }
}

impl EventRequest {
    /// Read an event out of a JSON value.
    pub fn from_json(v: &Json) -> (r: Result<EventRequest, String>)
        ensures
            match r {
                Ok(q) => event_of(v@) == Ok::<(Seq<char>, JsonView), Seq<char>>(
                    (q.event_type@, q.payload@),
                ),
                Err(e) => event_of(v@) == Err::<(Seq<char>, JsonView), Seq<char>>(e@),
            },
    {
        match v {
            Json::Object(_) => {
                let event_type = match decode::text_field(v.get("event_type")) {
                    Err(e) => return Err(e),
                    Ok(None) => return Err(decode::complain_missing("event_type")),
                    Ok(Some(s)) => s,
                };
                match v.get("payload") {
                    None => Err(decode::complain_missing("payload")),
                    Some(payload) => Ok(EventRequest { event_type, payload: payload.clone() }),
                }
            },
            Json::List(items) => {
                proof {
                    json::lemma_list_view(*items);
                }
                let want = "struct EventRequest with 2 elements";
                let event_type = match decode::text_field(decode::at(items, 0)) {
                    Err(e) => return Err(e),
                    Ok(None) => return Err(decode::complain_length(0, want)),
                    Ok(Some(s)) => s,
                };
                match decode::at(items, 1) {
                    None => Err(decode::complain_length(1, want)),
                    Some(payload) => if items.len() > 2 {
                        Err(decode::complain_length(items.len(), "fewer elements in array"))
                    } else {
                        Ok(EventRequest { event_type, payload: payload.clone() })
                    },
                }
            },
            _ => Err(decode::complain(v, "struct EventRequest")),
        }
    }
}

/// The JSON form of an instance.
pub open spec fn entry_json(e: EntryView) -> JsonView {
    JsonView::Object(
        map![
            "instance_id"@ => JsonView::Text(e.instance_id),
            "name"@ => JsonView::Text(e.name),
            "http_url"@ => JsonView::Text(e.http_url),
            "capabilities"@ => dag::texts_json(e.capabilities),
            "metadata"@ => dag::labels_json(e.metadata),
            "registered_at"@ => JsonView::Text(e.registered_at),
            "last_health_check"@ => dag::opt_json(e.last_health_check),
            "status"@ => JsonView::Text(e.status.label()),
        ],
    )
}

/// See `entry_json`.
pub fn entry_to_json(e: &RegistrationEntry) -> (r: Json)
    ensures
        r@ == entry_json(e@),
{
    let capabilities = supervisor::text_list(&e.capabilities);
    assert(capabilities@->List_0 =~= dag::texts_json(e@.capabilities)->List_0);
    let checked = match &e.last_health_check {
        Some(s) => Json::text(s.as_str()),
        None => Json::Null,
    };
    let mut m: TextMap<Json> = TextMap::new();
    m.insert("instance_id".to_string(), Json::text(e.instance_id.as_str()));
    m.insert("name".to_string(), Json::text(e.name.as_str()));
    m.insert("http_url".to_string(), Json::text(e.http_url.as_str()));
    m.insert("capabilities".to_string(), capabilities);
    m.insert("metadata".to_string(), dag::labels_to_json(&e.metadata));
    m.insert("registered_at".to_string(), Json::text(e.registered_at.as_str()));
    m.insert("last_health_check".to_string(), checked);
    m.insert("status".to_string(), Json::text(e.status.as_str()));
    let r = Json::Object(m);
    assert(r@->Object_0 =~= entry_json(e@)->Object_0);
    r
}

/// An answer that tells an error.
pub open spec fn error_reply(status: u16, error: Seq<char>) -> ReplyView {
    ReplyView { status, body: Some(JsonView::Object(map!["error"@ => JsonView::Text(error)])) }
}

fn refuse(status: u16, error: &str) -> (r: HttpReply)
    ensures
        r@ == error_reply(status, error@),
{
    let mut m: TextMap<Json> = TextMap::new();
    m.insert("error".to_string(), Json::text(error));
    let body = Json::Object(m);
    assert(body@->Object_0 =~= map!["error"@ => JsonView::Text(error@)]);
    HttpReply { status, body: Some(body) }
}

/// Register an instance under a new id. The answer comes with the id of an
/// instance that the registration has put out.
pub fn register_agent(
    store: &mut RegistryStore,
    poll_interval_secs: u64,
    req: RegisterRequest,
    instance_id: u128,
    now: &str,
) -> (r: (HttpReply, Option<String>))
    ensures
        ({
            let entry = EntryView {
                instance_id: ids::id_text(instance_id),
                name: req@.name,
                http_url: req@.http_url,
                capabilities: req@.capabilities,
                metadata: req@.metadata,
                registered_at: now@,
                last_health_check: None,
                status: RegistryStatus::Unknown,
            };
            &&& final(store)@ == old(store)@.registered(entry)
            &&& r.0@ == (ReplyView {
                status: 200,
                body: Some(
                    JsonView::Object(
                        map![
                            "instance_id"@ => JsonView::Text(ids::id_text(instance_id)),
                            "poll_interval_secs"@ => JsonView::Number(
                                NumberView::Int(poll_interval_secs as int),
                            ),
                        ],
                    ),
                ),
            })
            &&& text::opt(r.1) == (match old(store)@.put_out(entry) {
                Some(x) => Some(x.instance_id),
                None => None,
            })
        }),
{
    let id = ids::text_of_id(instance_id);
    let response = RegisterResponse { instance_id: id.clone(), poll_interval_secs };
    let displaced = store.register(
        RegistrationEntry {
            instance_id: id,
            name: req.name,
            http_url: req.http_url,
            capabilities: req.capabilities,
            metadata: req.metadata,
            registered_at: now.to_string(),
            last_health_check: None,
            status: RegistryStatus::Unknown,
        },
    );
    let mut m: TextMap<Json> = TextMap::new();
    m.insert("instance_id".to_string(), Json::string(response.instance_id));
    m.insert("poll_interval_secs".to_string(), Json::uint(response.poll_interval_secs));
    let body = Json::Object(m);
    assert(body@->Object_0 =~= map![
        "instance_id"@ => JsonView::Text(ids::id_text(instance_id)),
        "poll_interval_secs"@ => JsonView::Number(NumberView::Int(poll_interval_secs as int)),
    ]);
    (HttpReply { status: 200, body: Some(body) }, displaced)
}

/// Remove an instance.
pub fn deregister_instance(store: &mut RegistryStore, id: &str) -> (r: HttpReply)
    ensures
        final(store)@ == old(store)@.deregistered(id@),
        old(store)@.has(id@) ==> r@ == (ReplyView { status: 204, body: None }),
        !old(store)@.has(id@) ==> r@ == error_reply(404, "instance not found"@),
{
    if store.deregister(id) {
        HttpReply { status: 204, body: None }
    } else {
        refuse(404, "instance not found")
    }
}

/// A list of instances as a JSON value.
pub open spec fn entries_json(s: Seq<EntryView>) -> JsonView {
    JsonView::List(Seq::new(s.len(), |i: int| entry_json(s[i])))
}

/// List the instances of an agent.
pub fn list_instances(store: &RegistryStore, name: &str) -> (r: HttpReply)
    ensures
        r@ == (ReplyView { status: 200, body: Some(entries_json(store@.named(name@))) }),
{
    let entries = store.list_by_name(name);
    let ghost s = store@.named(name@);
    assert(registry_store::entry_views(entries@).len() == entries@.len());
    let mut out: Vec<Json> = Vec::new();
    let mut i: usize = 0;
    while i < entries.len()
        invariant
            i <= entries@.len(),
            registry_store::entry_views(entries@) == s,
            out@.len() == i,
            forall|j: int| 0 <= j < i ==> (#[trigger] out@[j])@ == entry_json(s[j]),
        decreases entries@.len() - i,
    {
        assert(s[i as int] == entries@[i as int]@);
        out.push(entry_to_json(&entries[i]));
        i += 1;
    }
    let body = Json::List(out);
    assert(body@->List_0 =~= entries_json(s)->List_0);
    HttpReply { status: 200, body: Some(body) }
}

/// The instance `id` of an agent.
pub open spec fn instance_of(v: RegistryView, name: Seq<char>, id: Seq<char>) -> Option<EntryView> {
    execution_store::first(v.named(name), |e: EntryView| e.instance_id == id)
}

/// Show one instance of an agent.
pub fn get_instance(store: &RegistryStore, name: &str, id: &str) -> (r: HttpReply)
    ensures
        r@ == (match instance_of(store@, name@, id@) {
            Some(e) => ReplyView { status: 200, body: Some(entry_json(e)) },
            None => error_reply(404, "not found"@),
        }),
{
    let entries = store.list_by_name(name);
    let ghost s = store@.named(name@);
    let ghost p = |e: EntryView| e.instance_id == id@;
    assert(registry_store::entry_views(entries@).len() == entries@.len());
    let mut i: usize = 0;
    while i < entries.len()
        invariant
            i <= entries@.len(),
            registry_store::entry_views(entries@) == s,
            s == store@.named(name@),
            p == (|e: EntryView| e.instance_id == id@),
            forall|j: int| 0 <= j < i ==> !p(#[trigger] s[j]),
        decreases entries@.len() - i,
    {
        assert(s[i as int] == entries@[i as int]@);
        if text::same(entries[i].instance_id.as_str(), id) {
            proof {
                execution_store::lemma_first_at(s, p, i as int);
            }
            return HttpReply { status: 200, body: Some(entry_to_json(&entries[i])) };
        }
        i += 1;
    }
    proof {
        execution_store::lemma_first_at(s, p, i as int);
    }
    refuse(404, "not found")
}

/// Keep an event of an instance.
pub fn push_event(store: &mut RegistryStore, id: &str, req: &EventRequest, now: &str) -> (r: HttpReply)
    ensures
        old(store)@.has(id@) ==> r@ == (ReplyView { status: 202, body: None }) && final(store)@ == (
        RegistryView {
            entries: old(store)@.entries,
            events: old(store)@.events.push(
                AgentEventView {
                    instance_id: id@,
                    event_type: req.event_type@,
                    payload: json::json_text(req.payload@),
                    received_at: now@,
                },
            ),
        }),
        !old(store)@.has(id@) ==> final(store)@ == old(store)@ && r@ == error_reply(
            500,
            (ErrorView::RegistryError { message: "FOREIGN KEY constraint failed"@ }).words(),
        ),
{
    let payload = req.payload.to_text();
    match store.add_event(id, req.event_type.as_str(), payload.as_str(), now) {
        Ok(()) => HttpReply { status: 202, body: None },
        Err(e) => refuse(500, e.to_string().as_str()),
    }
}

/// The instances that a filter lets through.
pub open spec fn admitted(entries: Seq<EntryView>, capability: Option<Seq<char>>) -> Seq<EntryView> {
    match capability {
        Some(c) => entries.filter(|e: EntryView| e.capabilities.contains(c)),
        None => entries,
    }
}

/// An `AgentSummary` as a mathematical value.
pub struct SummaryView {
    pub name: Seq<char>,
    pub instance_count: nat,
    pub status: Seq<char>,
}

impl View for AgentSummary {
    type V = SummaryView;

    open spec fn view(&self) -> SummaryView {
        SummaryView {
            name: self.name@,
            instance_count: self.instance_count as nat,
            status: self.status@,
        }
    }
}

/// Whether some instance of an agent has a status.
pub open spec fn some_instance(entries: Seq<EntryView>, name: Seq<char>, status: RegistryStatus) -> bool {
    exists|i: int|
        0 <= i < entries.len() && (#[trigger] entries[i]).name == name && entries[i].status == status
}

/// An agent as its instances show it: healthy where one of them is, unhealthy where
/// all of them are, and of unknown health otherwise.
pub open spec fn summary_of(entries: Seq<EntryView>, name: Seq<char>) -> SummaryView {
    SummaryView {
        name,
        instance_count: entries.filter(|e: EntryView| e.name == name).len(),
        status: if some_instance(entries, name, RegistryStatus::Healthy) {
            "healthy"@
        } else if !some_instance(entries, name, RegistryStatus::Unknown) {
            "unhealthy"@
        } else {
            "unknown"@
        },
    }
}

/// Whether an instance belongs to an agent of this name.
pub open spec fn is_named(entries: Seq<EntryView>, name: Seq<char>) -> bool {
    exists|i: int| 0 <= i < entries.len() && (#[trigger] entries[i]).name == name
}

/// See `admitted`.
fn let_through(entries: &Vec<RegistrationEntry>, capability: &Option<String>) -> (r: Vec<RegistrationEntry>)
    ensures
        registry_store::entry_views(r@) == admitted(
            registry_store::entry_views(entries@),
            text::opt(*capability),
        ),
{
    let ghost s = registry_store::entry_views(entries@);
    let mut out: Vec<RegistrationEntry> = Vec::new();
    let mut i: usize = 0;
    match capability {
        Some(c) => {
            let ghost p = |e: EntryView| e.capabilities.contains(c@);
            assert(registry_store::entry_views(out@) =~= s.take(0).filter(p));
            while i < entries.len()
                invariant
                    i <= entries@.len(),
                    s == registry_store::entry_views(entries@),
                    p == (|e: EntryView| e.capabilities.contains(c@)),
                    registry_store::entry_views(out@) == s.take(i as int).filter(p),
                decreases entries@.len() - i,
            {
                proof {
                    assert(s[i as int] == entries@[i as int]@);
                    text::lemma_filter_more(s, p, i + 1);
                }
                if text::contains(&entries[i].capabilities, c.as_str()) {
                    let ghost prior = registry_store::entry_views(out@);
                    out.push(entries[i].clone());
                    assert(registry_store::entry_views(out@) =~= prior.push(s[i as int]));
                }
                i += 1;
            }
            assert(s.take(s.len() as int) =~= s);
        },
        None => {
            while i < entries.len()
                invariant
                    i <= entries@.len(),
                    s == registry_store::entry_views(entries@),
                    out@.len() == i,
                    forall|j: int| 0 <= j < i ==> (#[trigger] out@[j])@ == s[j],
                decreases entries@.len() - i,
            {
                out.push(entries[i].clone());
                i += 1;
            }
            assert(registry_store::entry_views(out@) =~= s);
        },
    }
    out
}

/// See `summary_of`.
fn summarize(entries: &Vec<RegistrationEntry>, name: &str) -> (r: AgentSummary)
    ensures
        r@ == summary_of(registry_store::entry_views(entries@), name@),
{
    let ghost s = registry_store::entry_views(entries@);
    let ghost p = |e: EntryView| e.name == name@;
    let mut count: usize = 0;
    let mut healthy = false;
    let mut unknown = false;
    let mut i: usize = 0;
    assert(s.take(0).filter(p) =~= Seq::empty()) by {
        reveal(Seq::filter);
    }
    while i < entries.len()
        invariant
            i <= entries@.len(),
            s == registry_store::entry_views(entries@),
            p == (|e: EntryView| e.name == name@),
            count == s.take(i as int).filter(p).len(),
            count <= i,
            healthy == exists|j: int|
                0 <= j < i && (#[trigger] s[j]).name == name@ && s[j].status == RegistryStatus::Healthy,
            unknown == exists|j: int|
                0 <= j < i && (#[trigger] s[j]).name == name@ && s[j].status == RegistryStatus::Unknown,
        decreases entries@.len() - i,
    {
        proof {
            assert(s[i as int] == entries@[i as int]@);
            text::lemma_filter_more(s, p, i + 1);
        }
        if text::same(entries[i].name.as_str(), name) {
            count += 1;
            if entries[i].status == RegistryStatus::Healthy {
                healthy = true;
            }
            if entries[i].status == RegistryStatus::Unknown {
                unknown = true;
            }
        }
        i += 1;
    }
    assert(s.take(s.len() as int) =~= s);
    let status = if healthy {
        "healthy"
    } else if !unknown {
        "unhealthy"
    } else {
        "unknown"
    };
    AgentSummary { name: name.to_string(), instance_count: count, status: status.to_string() }
}

/// The agents among the instances that a filter lets through, by name.
pub fn summaries(store: &RegistryStore, filter: &CapabilityFilter) -> (r: Vec<AgentSummary>)
    ensures
        ({
            let entries = admitted(store@.entries, text::opt(filter.capability));
            let names = Seq::new(r@.len(), |i: int| r@[i]@.name);
            &&& text_map::ascending(names)
            &&& forall|x: Seq<char>| #[trigger] names.contains(x) <==> is_named(entries, x)
            &&& forall|i: int| 0 <= i < r@.len() ==> (#[trigger] r@[i])@ == summary_of(entries, names[i])
        }),
        forall|i: int|
            0 <= i < r@.len() ==> registry_laws::tells_of(
                store@.entries,
                text::opt(filter.capability),
                (#[trigger] r@[i])@.name,
                r@[i]@.instance_count as int,
                r@[i]@.status,
            ),
{
    let entries = let_through(&store.entries, &filter.capability);
    let ghost s = admitted(store@.entries, text::opt(filter.capability));
    assert(registry_store::entry_views(entries@).len() == entries@.len());
    let mut seen: TextMap<bool> = TextMap::new();
    let mut i: usize = 0;
    while i < entries.len()
        invariant
            i <= entries@.len(),
            registry_store::entry_views(entries@) == s,
            forall|x: Seq<char>| #[trigger]
                seen@.dom().contains(x) <==> exists|j: int| 0 <= j < i && (#[trigger] s[j]).name == x,
        decreases entries@.len() - i,
    {
        assert(s[i as int] == entries@[i as int]@);
        let ghost before = seen@;
        seen.insert(entries[i].name.clone(), true);
        i += 1;
        proof {
            assert forall|x: Seq<char>| #[trigger] seen@.dom().contains(x) <==> exists|j: int|
                0 <= j < i && (#[trigger] s[j]).name == x by {
                assert(before.dom().contains(x) <==> exists|j: int| 0 <= j < i - 1 && (#[trigger] s[j]).name == x);
                if s[i - 1].name == x {
                    assert(0 <= i - 1 < i);
                }
            }
        }
    }
    let n: usize = seen.len();
    let mut out: Vec<AgentSummary> = Vec::new();
    let mut k: usize = 0;
    while k < n
        invariant
            k <= n,
            n == seen.keys().len(),
            registry_store::entry_views(entries@) == s,
            out@.len() == k,
            forall|j: int| 0 <= j < k ==> (#[trigger] out@[j])@ == summary_of(s, seen.keys()[j]),
        decreases n - k,
    {
        let (name, _) = seen.at(k);
        out.push(summarize(&entries, name.as_str()));
        k += 1;
    }
    proof {
        let names = Seq::new(out@.len(), |i: int| out@[i]@.name);
        assert(names =~= seen.keys());
        assert forall|x: Seq<char>| #[trigger] names.contains(x) <==> is_named(s, x) by {
            assert(seen.keys().to_set().contains(x) <==> seen.keys().contains(x));
            assert(seen@.dom().contains(x) <==> is_named(s, x));
        }
        assert forall|i: int| 0 <= i < out@.len() implies registry_laws::tells_of(
            store@.entries,
            text::opt(filter.capability),
            (#[trigger] out@[i])@.name,
            out@[i]@.instance_count as int,
            out@[i]@.status,
        ) by {
            assert(names.contains(names[i]));
            registry_laws::lemma_summary(store@.entries, text::opt(filter.capability), names[i]);
        }
    }
    out
}

/// The JSON form of a summary.
pub open spec fn summary_json(v: SummaryView) -> JsonView {
    JsonView::Object(
        map![
            "name"@ => JsonView::Text(v.name),
            "instance_count"@ => JsonView::Number(NumberView::Int(v.instance_count as int)),
            "status"@ => JsonView::Text(v.status),
        ],
    )
}

/// List the agents, each with the number and the health of its instances.
pub fn list_agents(store: &RegistryStore, filter: &CapabilityFilter) -> (r: HttpReply)
    ensures
        ({
            let entries = admitted(store@.entries, text::opt(filter.capability));
            &&& r.status == 200
            &&& r.body matches Some(v) && v@ matches JsonView::List(rows) && exists|names: Seq<Seq<char>>|
                #[trigger] text_map::ascending(names) && names.len() == rows.len() && (forall|x: Seq<char>|
                    #[trigger] names.contains(x) <==> is_named(entries, x)) && (forall|i: int|
                    0 <= i < rows.len() ==> #[trigger] rows[i] == summary_json(summary_of(entries, names[i])))
        }),
        r.body matches Some(v) && registry_laws::lists_agents(
            store@.entries,
            text::opt(filter.capability),
            v@,
        ),
{
    let all = summaries(store, filter);
    let ghost entries = admitted(store@.entries, text::opt(filter.capability));
    let ghost names = Seq::new(all@.len(), |i: int| all@[i]@.name);
    let mut out: Vec<Json> = Vec::new();
    let mut i: usize = 0;
    while i < all.len()
        invariant
            i <= all@.len(),
            out@.len() == i,
            names.len() == all@.len(),
            forall|j: int| 0 <= j < all@.len() ==> (#[trigger] all@[j])@ == summary_of(entries, names[j]),
            forall|j: int| 0 <= j < i ==> (#[trigger] out@[j])@ == summary_json(summary_of(entries, names[j])),
        decreases all@.len() - i,
    {
        let ghost v = all@[i as int]@;
        let mut m: TextMap<Json> = TextMap::new();
        m.insert("name".to_string(), Json::text(all[i].name.as_str()));
        m.insert("instance_count".to_string(), Json::uint(all[i].instance_count as u64));
        m.insert("status".to_string(), Json::text(all[i].status.as_str()));
        let row = Json::Object(m);
        assert(row@->Object_0 =~= summary_json(v)->Object_0);
        out.push(row);
        i += 1;
    }
    let body = Json::List(out);
    proof {
        let rows = body@->List_0;
        assert(text_map::ascending(names));
        assert forall|i: int| 0 <= i < rows.len() implies #[trigger] rows[i] == summary_json(summary_of(entries, names[i])) by {
            assert(rows[i] == out@[i]@);
        }
        registry_laws::law_agents_are_listed(store@.entries, text::opt(filter.capability), names, rows);
    }
    HttpReply { status: 200, body: Some(body) }
}

} // verus!

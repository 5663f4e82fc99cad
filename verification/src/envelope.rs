//! The messages that aether and its agents exchange.

use vstd::prelude::*;
use vstd::string::*;
use crate::dag;
use crate::decode;
use crate::ids;
use crate::json;
use crate::json::{Json, JsonView};
use crate::text;
use crate::text_map;
use crate::text_map::TextMap;
use crate::types::copy_labels;

verus! {

/// What a message is.
#[derive(Debug, Clone, Copy, PartialEq, Eq, Structural)]
pub enum EnvelopeKind {
    Invoke,
    Result,
    Error,
    Suspended,
}

/// A message to an agent, or its answer.
#[derive(Debug, PartialEq)]
pub struct Envelope {
    pub id: u128,
    pub kind: EnvelopeKind,
    pub payload: Json,
    pub metadata: TextMap<String>,
}

/// An `Envelope` as a mathematical value.
#[verifier::ext_equal]
pub struct EnvelopeView {
    pub id: u128,
    pub kind: EnvelopeKind,
    pub payload: JsonView,
    pub metadata: Map<Seq<char>, Seq<char>>,
}

impl View for Envelope {
    type V = EnvelopeView;

    open spec fn view(&self) -> EnvelopeView {
        EnvelopeView {
            id: self.id,
            kind: self.kind,
            payload: self.payload@,
            metadata: decode::labels(self.metadata@),
        }
    }
}

/// What stands between the texts of several parts.
pub open spec fn separator() -> Seq<char> {
    "\n\n---\n\n"@
}

/// Texts with the separator between them.
pub open spec fn joined(s: Seq<Seq<char>>) -> Seq<char>
    decreases s.len(),
{
    if s.len() == 0 {
        Seq::empty()
    } else if s.len() == 1 {
        s[0]
    } else {
        joined(s.drop_last()) + separator() + s.last()
    }
}

/// The first string among the members `input`, `output`, `message` and `goal`.
pub open spec fn leading_text(v: JsonView) -> Option<Seq<char>> {
    if let Some(JsonView::Text(s)) = json::member(v, "input"@) {
        Some(s)
    } else if let Some(JsonView::Text(s)) = json::member(v, "output"@) {
        Some(s)
    } else if let Some(JsonView::Text(s)) = json::member(v, "message"@) {
        Some(s)
    } else if let Some(JsonView::Text(s)) = json::member(v, "goal"@) {
        Some(s)
    } else {
        None
    }
}

/// A payload as plain text.
pub open spec fn flat_text(v: JsonView) -> Seq<char>
    decreases v, 1int,
{
    match v {
        JsonView::Text(s) => s,
        JsonView::Object(_) => if leading_text(v) is Some {
            leading_text(v)->0
        } else {
            joined(part_texts(v))
        },
        JsonView::List(_) => joined(part_texts(v)),
        _ => json::json_text(v),
    }
}

/// The texts of the members of an object, in the order of their names, or of the
/// items of a list.
pub open spec fn part_texts(v: JsonView) -> Seq<Seq<char>>
    decreases v, 0int,
{
    match v {
        JsonView::Object(m) => {
            let keys = text_map::sorted_keys(m);
            Seq::new(
                keys.len(),
                |i: int|
                    if m.dom().finite() && m.dom().contains(keys[i]) {
                        flat_text(m[keys[i]])
                    } else {
                        Seq::empty()
                    },
            )
        },
        JsonView::List(s) => Seq::new(
            s.len(),
            |i: int|
                if 0 <= i < s.len() {
                    flat_text(s[i])
                } else {
                    Seq::empty()
                },
        ),
        _ => Seq::empty(),
    }
}

/// Flatten a payload into the plain text that an agent reads as its `input`: a
/// string as it is, a known member of an object (`input`, `output`, `message`,
/// `goal`, in this order), and otherwise the texts of all members or items.
pub fn payload_text(payload: &Json) -> (r: String)
    ensures
        r@ == flat_text(payload@),
    decreases payload,
{
    match payload {
        Json::Text(s) => s.clone(),
        Json::Object(m) => {
            if let Some(Json::Text(s)) = payload.get("input") {
                return s.clone();
            }
            if let Some(Json::Text(s)) = payload.get("output") {
                return s.clone();
            }
            if let Some(Json::Text(s)) = payload.get("message") {
                return s.clone();
            }
            if let Some(Json::Text(s)) = payload.get("goal") {
                return s.clone();
            }
            let ghost o = payload@->Object_0;
            let n: usize = m.len();
            proof {
                assert(o.dom() =~= m@.dom());
                text_map::lemma_ascending_unique(m.keys(), text_map::sorted_keys(o));
            }
            let ghost all = part_texts(payload@);
            let mut out = String::new();
            let mut i: usize = 0;
            assert(out@ =~= joined(all.take(0)));
            while i < n
                invariant
                    i <= n,
                    n == m.keys().len(),
                    *payload == Json::Object(*m),
                    payload@ == JsonView::Object(o),
                    o.dom() == m@.dom(),
                    o.dom().finite(),
                    all.len() == n,
                    forall|k: int| #![trigger all[k]] 0 <= k < n && o.dom().contains(m.keys()[k]) ==> all[k] == flat_text(o[m.keys()[k]]),
                    out@ == joined(all.take(i as int)),
                decreases n - i,
            {
                let (k, x) = m.at(i);
                proof {
                    m.lemma_value_decreases(k@);
                    assert(decreases_to!(*payload => payload->Object_0));
                    assert(all.take(i + 1).drop_last() =~= all.take(i as int));
                    assert(all[i as int] == flat_text(x@));
                }
                if i > 0 {
                    out.append("\n\n---\n\n");
                }
                out.append(payload_text(x).as_str());
                assert(out@ =~= joined(all.take(i + 1)));
                i += 1;
            }
            proof {
                assert(all.take(n as int) =~= all);
                assert(leading_text(payload@) is None);
            }
            out
        },
        Json::List(v) => {
            let ghost s = payload@->List_0;
            let ghost all = part_texts(payload@);
            let mut out = String::new();
            let mut i: usize = 0;
            assert(out@ =~= joined(all.take(0)));
            while i < v.len()
                invariant
                    i <= v@.len(),
                    *payload == Json::List(*v),
                    payload@ == JsonView::List(s),
                    all.len() == v@.len(),
                    forall|k: int| #![trigger all[k]] 0 <= k < v@.len() ==> all[k] == flat_text(v@[k]@),
                    out@ == joined(all.take(i as int)),
                decreases v@.len() - i,
            {
                proof {
                    assert(decreases_to!(*payload => payload->List_0));
                    assert(decreases_to!(v => v@));
                    assert(all.take(i + 1).drop_last() =~= all.take(i as int));
                }
                if i > 0 {
                    out.append("\n\n---\n\n");
                }
                out.append(payload_text(&v[i]).as_str());
                assert(out@ =~= joined(all.take(i + 1)));
                i += 1;
            }
            assert(all.take(all.len() as int) =~= all);
            out
        },
        _ => payload.to_text(),
    }
}

impl Envelope {
    /// A message that asks an agent to work on a payload.
    pub fn invoke(id: u128, payload: Json, metadata: TextMap<String>) -> (r: Envelope)
        ensures
            r@ == (EnvelopeView {
                id,
                kind: EnvelopeKind::Invoke,
                payload: payload@,
                metadata: decode::labels(metadata@),
            }),
    {
        Envelope { id, kind: EnvelopeKind::Invoke, payload, metadata }
    }
}

impl EnvelopeKind {
    /// The word for the kind.
    pub open spec fn label(self) -> Seq<char> {
        match self {
            EnvelopeKind::Invoke => "invoke"@,
            EnvelopeKind::Result => "result"@,
            EnvelopeKind::Error => "error"@,
            EnvelopeKind::Suspended => "suspended"@,
        }
    }

    /// The word for the kind.
    pub fn as_str(&self) -> (r: &'static str)
        ensures
            r@ == self.label(),
    {
        match self {
            EnvelopeKind::Invoke => "invoke",
            EnvelopeKind::Result => "result",
            EnvelopeKind::Error => "error",
            EnvelopeKind::Suspended => "suspended",
        }
    }
}

/// The kind that a word stands for, or the complaint about the word.
pub open spec fn kind_of(s: Seq<char>) -> Result<EnvelopeKind, Seq<char>> {
    if s == "invoke"@ {
        Ok(EnvelopeKind::Invoke)
    } else if s == "result"@ {
        Ok(EnvelopeKind::Result)
    } else if s == "error"@ {
        Ok(EnvelopeKind::Error)
    } else if s == "suspended"@ {
        Ok(EnvelopeKind::Suspended)
    } else {
        Err(
            "unknown variant `"@ + s
                + "`, expected one of `invoke`, `result`, `error`, `suspended`"@,
        )
    }
}

impl EnvelopeView {
    /// The JSON form.
    pub open spec fn json(self) -> JsonView {
        JsonView::Object(
            map![
                "id"@ => JsonView::Text(ids::id_text(self.id)),
                "kind"@ => JsonView::Text(self.kind.label()),
                "payload"@ => self.payload,
                "metadata"@ => dag::labels_json(self.metadata),
            ],
        )
    }
}

/// The id in a field, where there is such a field.
pub open spec fn id_in(o: Option<JsonView>) -> Result<Option<u128>, Seq<char>> {
    match o {
        None => Ok(None),
        Some(JsonView::Text(s)) => match ids::id_parse(s) {
            Ok(id) => Ok(Some(id)),
            Err(e) => Err("UUID parsing failed: "@ + e),
        },
        Some(x) => Err(decode::wrong_kind(x, "a UUID string"@)),
    }
}

/// The kind that an object stands for: its one member is named by the word for the
/// kind, and holds nothing.
pub open spec fn kind_of_object(m: Map<Seq<char>, JsonView>) -> Result<EnvelopeKind, Seq<char>> {
    let names = text_map::sorted_keys(m);
    if names.len() != 1 {
        Err("invalid value: map, expected map with a single key"@)
    } else {
        match kind_of(names[0]) {
            Err(e) => Err(e),
            Ok(k) => if m[names[0]] is Null {
                Ok(k)
            } else {
                Err(decode::wrong_kind(m[names[0]], "unit"@))
            },
        }
    }
}

/// The kind in a field, where there is such a field.
pub open spec fn kind_in(o: Option<JsonView>) -> Result<Option<EnvelopeKind>, Seq<char>> {
    match o {
        None => Ok(None),
        Some(JsonView::Text(s)) => match kind_of(s) {
            Ok(k) => Ok(Some(k)),
            Err(e) => Err(e),
        },
        Some(JsonView::Object(m)) => match kind_of_object(m) {
            Ok(k) => Ok(Some(k)),
            Err(e) => Err(e),
        },
        Some(x) => Err(decode::wrong_kind(x, "string or map"@)),
    }
}

/// The labels in a field, where there is such a field.
pub open spec fn metadata_in(o: Option<JsonView>) -> Result<Option<Map<Seq<char>, Seq<char>>>, Seq<char>> {
    match o {
        None => Ok(None),
        Some(x) => match decode::labels_of(x) {
            Ok(m) => Ok(Some(m)),
            Err(e) => Err(e),
        },
    }
}

/// The message that an object stands for, or the complaint about the object.
pub open spec fn envelope_by_name(v: JsonView) -> Result<EnvelopeView, Seq<char>> {
    match (
        id_in(json::member(v, "id"@)),
        kind_in(json::member(v, "kind"@)),
        metadata_in(json::member(v, "metadata"@)),
        json::member(v, "payload"@),
    ) {
        (Err(e), _, _, _) => Err(e),
        (_, Err(e), _, _) => Err(e),
        (_, _, Err(e), _) => Err(e),
        (Ok(None), _, _, _) => Err(decode::missing("id"@)),
        (_, Ok(None), _, _) => Err(decode::missing("kind"@)),
        (_, _, _, None) => Err(decode::missing("payload"@)),
        (_, _, Ok(None), _) => Err(decode::missing("metadata"@)),
        (Ok(Some(id)), Ok(Some(kind)), Ok(Some(metadata)), Some(payload)) => Ok(
            EnvelopeView { id, kind, payload, metadata },
        ),
    }
}

/// The message whose fields a list gives in their order, or the complaint about the
/// list.
pub open spec fn envelope_in_order(s: Seq<JsonView>) -> Result<EnvelopeView, Seq<char>> {
    let want = "struct Envelope with 4 elements"@;
    match (
        id_in(decode::item(s, 0)),
        kind_in(decode::item(s, 1)),
        decode::item(s, 2),
        metadata_in(decode::item(s, 3)),
    ) {
        (Err(e), _, _, _) => Err(e),
        (Ok(None), _, _, _) => Err(decode::wrong_length(0, want)),
        (_, Err(e), _, _) => Err(e),
        (_, Ok(None), _, _) => Err(decode::wrong_length(1, want)),
        (_, _, None, _) => Err(decode::wrong_length(2, want)),
        (_, _, _, Err(e)) => Err(e),
        (_, _, _, Ok(None)) => Err(decode::wrong_length(3, want)),
        (Ok(Some(id)), Ok(Some(kind)), Some(payload), Ok(Some(metadata))) => if s.len() > 4 {
            Err(decode::too_long(s.len()))
        } else {
            Ok(EnvelopeView { id, kind, payload, metadata })
        },
    }
}

/// The message that a JSON value stands for, or the complaint about the value.
pub open spec fn envelope_of(v: JsonView) -> Result<EnvelopeView, Seq<char>> {
    match v {
        JsonView::Object(_) => envelope_by_name(v),
        JsonView::List(s) => envelope_in_order(s),
        _ => Err(decode::wrong_kind(v, "struct Envelope"@)),
    }
}

/// See `id_in`.
fn read_id(o: Option<&Json>) -> (r: Result<Option<u128>, String>)
    ensures
        match r {
            Ok(id) => id_in(decode::seen(o)) == Ok::<Option<u128>, Seq<char>>(id),
            Err(e) => id_in(decode::seen(o)) == Err::<Option<u128>, Seq<char>>(e@),
        },
{
    match o {
        None => Ok(None),
        Some(x) => match x {
            Json::Text(s) => match ids::parse_id(s.as_str()) {
                Ok(id) => Ok(Some(id)),
                Err(e) => Err(text::cat("UUID parsing failed: ", e.as_str())),
            },
            _ => Err(decode::complain(x, "a UUID string")),
        },
    }
}

/// See `kind_of`.
fn read_kind_word(s: &str) -> (r: Result<EnvelopeKind, String>)
    ensures
        match r {
            Ok(k) => kind_of(s@) == Ok::<EnvelopeKind, Seq<char>>(k),
            Err(e) => kind_of(s@) == Err::<EnvelopeKind, Seq<char>>(e@),
        },
{
    if text::same(s, "invoke") {
        Ok(EnvelopeKind::Invoke)
    } else if text::same(s, "result") {
        Ok(EnvelopeKind::Result)
    } else if text::same(s, "error") {
        Ok(EnvelopeKind::Error)
    } else if text::same(s, "suspended") {
        Ok(EnvelopeKind::Suspended)
    } else {
        let mut e = text::cat("unknown variant `", s);
        e.append("`, expected one of `invoke`, `result`, `error`, `suspended`");
        Err(e)
    }
}

/// See `kind_in`.
fn read_kind(o: Option<&Json>) -> (r: Result<Option<EnvelopeKind>, String>)
    ensures
        match r {
            Ok(k) => kind_in(decode::seen(o)) == Ok::<Option<EnvelopeKind>, Seq<char>>(k),
            Err(e) => kind_in(decode::seen(o)) == Err::<Option<EnvelopeKind>, Seq<char>>(e@),
        },
{
    let x = match o {
        None => return Ok(None),
        Some(x) => x,
    };
    match x {
        Json::Text(s) => match read_kind_word(s.as_str()) {
            Ok(k) => Ok(Some(k)),
            Err(e) => Err(e),
        },
        Json::Object(m) => {
            let ghost names = text_map::sorted_keys(x@->Object_0);
            let n: usize = m.len();
            proof {
                assert(x@->Object_0.dom() =~= m@.dom());
                text_map::lemma_ascending_unique(m.keys(), names);
            }
            if n != 1 {
                return Err("invalid value: map, expected map with a single key".to_string());
            }
            let (name, held) = m.at(0);
            let k = match read_kind_word(name.as_str()) {
                Ok(k) => k,
                Err(e) => return Err(e),
            };
            match held {
                Json::Null => Ok(Some(k)),
                _ => Err(decode::complain(held, "unit")),
            }
        },
        _ => Err(decode::complain(x, "string or map")),
    }
}

/// See `metadata_in`.
fn read_metadata(o: Option<&Json>) -> (r: Result<Option<TextMap<String>>, String>)
    ensures
        match r {
            Ok(Some(m)) => metadata_in(decode::seen(o)) == Ok::<
                Option<Map<Seq<char>, Seq<char>>>,
                Seq<char>,
            >(Some(decode::labels(m@))),
            Ok(None) => metadata_in(decode::seen(o)) == Ok::<Option<Map<Seq<char>, Seq<char>>>, Seq<char>>(
                None,
            ),
            Err(e) => metadata_in(decode::seen(o)) == Err::<Option<Map<Seq<char>, Seq<char>>>, Seq<char>>(
                e@,
            ),
        },
{
    match o {
        None => Ok(None),
        Some(x) => match decode::label_map(x) {
            Ok(m) => Ok(Some(m)),
            Err(e) => Err(e),
        },
    }
}

/// See `envelope_in_order`.
fn read_in_order(v: &Vec<Json>) -> (r: Result<Envelope, String>)
    ensures
        match r {
            Ok(e) => envelope_in_order(decode::items(v@)) == Ok::<EnvelopeView, Seq<char>>(e@),
            Err(e) => envelope_in_order(decode::items(v@)) == Err::<EnvelopeView, Seq<char>>(e@),
        },
{
    let want = "struct Envelope with 4 elements";
    let id = match read_id(decode::at(v, 0)) {
        Ok(Some(id)) => id,
        Ok(None) => return Err(decode::complain_length(0, want)),
        Err(e) => return Err(e),
    };
    let kind = match read_kind(decode::at(v, 1)) {
        Ok(Some(kind)) => kind,
        Ok(None) => return Err(decode::complain_length(1, want)),
        Err(e) => return Err(e),
    };
    let payload = match decode::at(v, 2) {
        Some(x) => x.clone(),
        None => return Err(decode::complain_length(2, want)),
    };
    let metadata = match read_metadata(decode::at(v, 3)) {
        Ok(Some(m)) => m,
        Ok(None) => return Err(decode::complain_length(3, want)),
        Err(e) => return Err(e),
    };
    if v.len() > 4 {
        return Err(decode::complain_length(v.len(), "fewer elements in array"));
    }
    Ok(Envelope { id, kind, payload, metadata })
}

/// The names and words of the JSON form are different texts.
proof fn lemma_names()
    ensures
        "id"@.len() == 2,
        "kind"@.len() == 4,
        "payload"@.len() == 7,
        "metadata"@.len() == 8,
        "invoke"@.len() == 6,
        "result"@.len() == 6,
        "error"@.len() == 5,
        "suspended"@.len() == 9,
        "invoke"@[0] == 'i',
        "result"@[0] == 'r',
{
    reveal_strlit("id");
    reveal_strlit("kind");
    reveal_strlit("payload");
    reveal_strlit("metadata");
    reveal_strlit("invoke");
    reveal_strlit("result");
    reveal_strlit("error");
    reveal_strlit("suspended");
}

impl Envelope {
    /// The JSON form, which stands for the message again.
    pub fn to_json(&self) -> (r: Json)
        ensures
            r@ == self@.json(),
            envelope_of(r@) == Ok::<EnvelopeView, Seq<char>>(self@),
    {
        let mut m: TextMap<Json> = TextMap::new();
        m.insert("id".to_string(), Json::string(ids::text_of_id(self.id)));
        m.insert("kind".to_string(), Json::text(self.kind.as_str()));
        m.insert("payload".to_string(), self.payload.clone());
        m.insert("metadata".to_string(), dag::labels_to_json(&self.metadata));
        let count: usize = self.metadata.len();
        let r = Json::Object(m);
        proof {
            assert(r@->Object_0 =~= self@.json()->Object_0);
            lemma_names();
            assert("invoke"@ != "result"@);
            assert(self@.metadata.dom() =~= self.metadata@.dom());
            dag::lemma_label_map_round_trip(self@.metadata);
        }
        r
    }

    /// Read a message out of a JSON value.
    pub fn from_json(v: &Json) -> (r: Result<Envelope, String>)
        ensures
            match r {
                Ok(e) => envelope_of(v@) == Ok::<EnvelopeView, Seq<char>>(e@),
                Err(e) => envelope_of(v@) == Err::<EnvelopeView, Seq<char>>(e@),
            },
    {
        match v {
            Json::Object(_) => {},
            Json::List(items) => {
                proof {
                    json::lemma_list_view(*items);
                }
                return read_in_order(items);
            },
            _ => {
                return Err(decode::complain(v, "struct Envelope"));
            },
        }
        let id = match read_id(v.get("id")) {
            Ok(id) => id,
            Err(e) => return Err(e),
        };
        let kind = match read_kind(v.get("kind")) {
            Ok(kind) => kind,
            Err(e) => return Err(e),
        };
        let metadata = match read_metadata(v.get("metadata")) {
            Ok(m) => m,
            Err(e) => return Err(e),
        };
        let id = match id {
            Some(id) => id,
            None => return Err(decode::complain_missing("id")),
        };
        let kind = match kind {
            Some(kind) => kind,
            None => return Err(decode::complain_missing("kind")),
        };
        let payload = match v.get("payload") {
            Some(x) => x.clone(),
            None => return Err(decode::complain_missing("payload")),
        };
        let metadata = match metadata {
            Some(m) => m,
            None => return Err(decode::complain_missing("metadata")),
        };
        Ok(Envelope { id, kind, payload, metadata })
    }
}

impl Clone for Envelope {
    fn clone(&self) -> (r: Envelope)
        ensures
            r@ == self@,
    {
        Envelope {
            id: self.id,
            kind: self.kind,
            payload: self.payload.clone(),
            metadata: copy_labels(&self.metadata),
        }
    }
}

} // verus!

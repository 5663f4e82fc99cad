//! Parking and resuming: what an agent says when it waits for a decision, and
//! how the decision comes back to it.

use vstd::prelude::*;
use vstd::string::*;
use crate::decode;
use crate::json;
use crate::json::{Json, JsonView};
use crate::text;
use crate::text_map::TextMap;

verus! {

/// What an agent sends when it waits for a decision.
#[derive(Debug, PartialEq, Eq)]
pub struct SuspendPayload {
    pub session_id: String,
    pub approval_id: String,
    pub kind: String,
    pub prompt: String,
    pub gate_deadline: Option<String>,
}

/// A `SuspendPayload` as a mathematical value.
pub struct SuspendView {
    pub session_id: Seq<char>,
    pub approval_id: Seq<char>,
    pub kind: Seq<char>,
    pub prompt: Seq<char>,
    pub gate_deadline: Option<Seq<char>>,
}

impl View for SuspendPayload {
    type V = SuspendView;

    open spec fn view(&self) -> SuspendView {
        SuspendView {
            session_id: self.session_id@,
            approval_id: self.approval_id@,
            kind: self.kind@,
            prompt: self.prompt@,
            gate_deadline: text::opt(self.gate_deadline),
        }
    }
}

impl SuspendView {
    /// The JSON form. A deadline that is not set is left out.
    pub open spec fn json(self) -> JsonView {
        let m = map![
            "session_id"@ => JsonView::Text(self.session_id),
            "approval_id"@ => JsonView::Text(self.approval_id),
            "kind"@ => JsonView::Text(self.kind),
            "prompt"@ => JsonView::Text(self.prompt),
        ];
        JsonView::Object(
            match self.gate_deadline {
                Some(d) => m.insert("gate_deadline"@, JsonView::Text(d)),
                None => m,
            },
        )
    }
}

/// The payload that an object stands for, or the complaint about the object.
pub open spec fn suspend_by_name(v: JsonView) -> Result<SuspendView, Seq<char>> {
    match (
        decode::text_in(json::member(v, "approval_id"@)),
        decode::opt_text_in(json::member(v, "gate_deadline"@)),
        decode::text_in(json::member(v, "kind"@)),
        decode::text_in(json::member(v, "prompt"@)),
        decode::text_in(json::member(v, "session_id"@)),
    ) {
        (Err(e), _, _, _, _) => Err(e),
        (_, Err(e), _, _, _) => Err(e),
        (_, _, Err(e), _, _) => Err(e),
        (_, _, _, Err(e), _) => Err(e),
        (_, _, _, _, Err(e)) => Err(e),
        (_, _, _, _, Ok(None)) => Err(decode::missing("session_id"@)),
        (Ok(None), _, _, _, _) => Err(decode::missing("approval_id"@)),
        (_, _, Ok(None), _, _) => Err(decode::missing("kind"@)),
        (_, _, _, Ok(None), _) => Err(decode::missing("prompt"@)),
        (
            Ok(Some(approval_id)),
            Ok(gate_deadline),
            Ok(Some(kind)),
            Ok(Some(prompt)),
            Ok(Some(session_id)),
        ) => Ok(SuspendView { session_id, approval_id, kind, prompt, gate_deadline }),
    }
}

/// The payload whose fields a list gives in their order, or the complaint about the
/// list.
pub open spec fn suspend_in_order(s: Seq<JsonView>) -> Result<SuspendView, Seq<char>> {
    let want = "struct SuspendPayload with 5 elements"@;
    match (
        decode::text_in(decode::item(s, 0)),
        decode::text_in(decode::item(s, 1)),
        decode::text_in(decode::item(s, 2)),
        decode::text_in(decode::item(s, 3)),
        decode::opt_text_in(decode::item(s, 4)),
    ) {
        (Err(e), _, _, _, _) => Err(e),
        (Ok(None), _, _, _, _) => Err(decode::wrong_length(0, want)),
        (_, Err(e), _, _, _) => Err(e),
        (_, Ok(None), _, _, _) => Err(decode::wrong_length(1, want)),
        (_, _, Err(e), _, _) => Err(e),
        (_, _, Ok(None), _, _) => Err(decode::wrong_length(2, want)),
        (_, _, _, Err(e), _) => Err(e),
        (_, _, _, Ok(None), _) => Err(decode::wrong_length(3, want)),
        (_, _, _, _, Err(e)) => Err(e),
        (
            Ok(Some(session_id)),
            Ok(Some(approval_id)),
            Ok(Some(kind)),
            Ok(Some(prompt)),
            Ok(gate_deadline),
        ) => if s.len() > 5 {
            Err(decode::too_long(s.len()))
        } else {
            Ok(SuspendView { session_id, approval_id, kind, prompt, gate_deadline })
        },
    }
}

/// The payload that a JSON value stands for, or the complaint about the value.
pub open spec fn suspend_of(v: JsonView) -> Result<SuspendView, Seq<char>> {
    match v {
        JsonView::Object(_) => suspend_by_name(v),
        JsonView::List(s) => suspend_in_order(s),
        _ => Err(decode::wrong_kind(v, "struct SuspendPayload"@)),
    }
}

/// See `suspend_in_order`.
fn read_suspend_in_order(v: &Vec<Json>) -> (r: Result<SuspendPayload, String>)
    ensures
        match r {
            Ok(p) => suspend_in_order(decode::items(v@)) == Ok::<SuspendView, Seq<char>>(p@),
            Err(e) => suspend_in_order(decode::items(v@)) == Err::<SuspendView, Seq<char>>(e@),
        },
{
    let want = "struct SuspendPayload with 5 elements";
    let session_id = match decode::text_field(decode::at(v, 0)) {
        Ok(Some(s)) => s,
        Ok(None) => return Err(decode::complain_length(0, want)),
        Err(e) => return Err(e),
    };
    let approval_id = match decode::text_field(decode::at(v, 1)) {
        Ok(Some(s)) => s,
        Ok(None) => return Err(decode::complain_length(1, want)),
        Err(e) => return Err(e),
    };
    let kind = match decode::text_field(decode::at(v, 2)) {
        Ok(Some(s)) => s,
        Ok(None) => return Err(decode::complain_length(2, want)),
        Err(e) => return Err(e),
    };
    let prompt = match decode::text_field(decode::at(v, 3)) {
        Ok(Some(s)) => s,
        Ok(None) => return Err(decode::complain_length(3, want)),
        Err(e) => return Err(e),
    };
    let gate_deadline = match decode::opt_text_field(decode::at(v, 4)) {
        Ok(s) => s,
        Err(e) => return Err(e),
    };
    if v.len() > 5 {
        return Err(decode::complain_length(v.len(), "fewer elements in array"));
    }
    Ok(SuspendPayload { session_id, approval_id, kind, prompt, gate_deadline })
}

impl SuspendPayload {
    /// Read a payload out of a JSON value.
    pub fn from_json(v: &Json) -> (r: Result<SuspendPayload, String>)
        ensures
            match r {
                Ok(p) => suspend_of(v@) == Ok::<SuspendView, Seq<char>>(p@),
                Err(e) => suspend_of(v@) == Err::<SuspendView, Seq<char>>(e@),
            },
    {
        match v {
            Json::Object(_) => {},
            Json::List(items) => {
                proof {
                    json::lemma_list_view(*items);
                }
                return read_suspend_in_order(items);
            },
            _ => {
                return Err(decode::complain(v, "struct SuspendPayload"));
            },
        }
        let approval_id = match decode::text_field(v.get("approval_id")) {
            Ok(s) => s,
            Err(e) => return Err(e),
        };
        let gate_deadline = match decode::opt_text_field(v.get("gate_deadline")) {
            Ok(s) => s,
            Err(e) => return Err(e),
        };
        let kind = match decode::text_field(v.get("kind")) {
            Ok(s) => s,
            Err(e) => return Err(e),
        };
        let prompt = match decode::text_field(v.get("prompt")) {
            Ok(s) => s,
            Err(e) => return Err(e),
        };
        let session_id = match decode::text_field(v.get("session_id")) {
            Ok(s) => s,
            Err(e) => return Err(e),
        };
        let session_id = match session_id {
            Some(s) => s,
            None => return Err(decode::complain_missing("session_id")),
        };
        let approval_id = match approval_id {
            Some(s) => s,
            None => return Err(decode::complain_missing("approval_id")),
        };
        let kind = match kind {
            Some(s) => s,
            None => return Err(decode::complain_missing("kind")),
        };
        let prompt = match prompt {
            Some(s) => s,
            None => return Err(decode::complain_missing("prompt")),
        };
        Ok(SuspendPayload { session_id, approval_id, kind, prompt, gate_deadline })
    }

    /// The JSON form.
    pub fn to_json(&self) -> (r: Json)
        ensures
            r@ == self@.json(),
    {
        let mut m: TextMap<Json> = TextMap::new();
        m.insert("session_id".to_string(), Json::text(self.session_id.as_str()));
        m.insert("approval_id".to_string(), Json::text(self.approval_id.as_str()));
        m.insert("kind".to_string(), Json::text(self.kind.as_str()));
        m.insert("prompt".to_string(), Json::text(self.prompt.as_str()));
        if let Some(d) = &self.gate_deadline {
            m.insert("gate_deadline".to_string(), Json::text(d.as_str()));
        }
        let r = Json::Object(m);
        assert(r@->Object_0 =~= self@.json()->Object_0);
        r
    }
}

/// The names of the members are different texts.
proof fn lemma_field_names()
    ensures
        "session_id"@.len() == 10,
        "approval_id"@.len() == 11,
        "kind"@.len() == 4,
        "prompt"@.len() == 6,
        "gate_deadline"@.len() == 13,
        "type"@.len() == 4,
        "reason"@.len() == 6,
        "payload"@.len() == 7,
        "decision"@.len() == 8,
        "approved"@.len() == 8,
        "rejected"@.len() == 8,
        "modified"@.len() == 8,
        "approved"@[0] == 'a',
        "rejected"@[0] == 'r',
        "modified"@[0] == 'm',
{
    reveal_strlit("session_id");
    reveal_strlit("approval_id");
    reveal_strlit("kind");
    reveal_strlit("prompt");
    reveal_strlit("gate_deadline");
    reveal_strlit("type");
    reveal_strlit("reason");
    reveal_strlit("payload");
    reveal_strlit("decision");
    reveal_strlit("approved");
    reveal_strlit("rejected");
    reveal_strlit("modified");
}

/// A payload read out of its own JSON form is the payload.
pub proof fn law_suspend_payload_round_trip(p: SuspendView)
    ensures
        suspend_of(p.json()) == Ok::<SuspendView, Seq<char>>(p),
{
    lemma_field_names();
}

/// What a person has decided about a parked node.
#[derive(Debug, PartialEq)]
pub enum ApprovalDecision {
    Approved,
    Rejected { reason: Option<String> },
    Modified { payload: Json },
}

/// An `ApprovalDecision` as a mathematical value.
pub enum DecisionView {
    Approved,
    Rejected { reason: Option<Seq<char>> },
    Modified { payload: JsonView },
}

impl View for ApprovalDecision {
    type V = DecisionView;

    open spec fn view(&self) -> DecisionView {
        match *self {
            ApprovalDecision::Approved => DecisionView::Approved,
            ApprovalDecision::Rejected { reason } => DecisionView::Rejected {
                reason: text::opt(reason),
            },
            ApprovalDecision::Modified { payload } => DecisionView::Modified { payload: payload@ },
        }
    }
}

impl DecisionView {
    /// The JSON form: the member `type` tells the decisions apart.
    pub open spec fn json(self) -> JsonView {
        JsonView::Object(
            match self {
                DecisionView::Approved => map!["type"@ => JsonView::Text("approved"@)],
                DecisionView::Rejected { reason } => map![
                    "type"@ => JsonView::Text("rejected"@),
                    "reason"@ => match reason {
                        Some(s) => JsonView::Text(s),
                        None => JsonView::Null,
                    },
                ],
                DecisionView::Modified { payload } => map![
                    "type"@ => JsonView::Text("modified"@),
                    "payload"@ => payload,
                ],
            },
        )
    }
}

/// The decision that an object stands for.
pub open spec fn decision_by_name(v: JsonView) -> Option<DecisionView> {
    match json::member(v, "type"@) {
        Some(JsonView::Text(t)) => if t == "approved"@ {
            Some(DecisionView::Approved)
        } else if t == "rejected"@ {
            match decode::opt_text_in(json::member(v, "reason"@)) {
                Ok(reason) => Some(DecisionView::Rejected { reason }),
                Err(_) => None,
            }
        } else if t == "modified"@ {
            match json::member(v, "payload"@) {
                Some(payload) => Some(DecisionView::Modified { payload }),
                None => None,
            }
        } else {
            None
        },
        _ => None,
    }
}

/// The decision that a list of its type and its field stands for.
pub open spec fn decision_in_order(s: Seq<JsonView>) -> Option<DecisionView> {
    match decode::item(s, 0) {
        Some(JsonView::Text(t)) => if t == "approved"@ && s.len() == 1 {
            Some(DecisionView::Approved)
        } else if t == "rejected"@ && s.len() == 2 {
            match decode::opt_text_of(s[1]) {
                Ok(reason) => Some(DecisionView::Rejected { reason }),
                Err(_) => None,
            }
        } else if t == "modified"@ && s.len() == 2 {
            Some(DecisionView::Modified { payload: s[1] })
        } else {
            None
        },
        _ => None,
    }
}

/// The decision that a JSON value stands for.
pub open spec fn decision_of(v: JsonView) -> Option<DecisionView> {
    match v {
        JsonView::List(s) => decision_in_order(s),
        _ => decision_by_name(v),
    }
}

/// See `decision_in_order`.
fn read_decision_in_order(v: &Vec<Json>) -> (r: Option<ApprovalDecision>)
    ensures
        match r {
            Some(d) => decision_in_order(decode::items(v@)) == Some(d@),
            None => decision_in_order(decode::items(v@)) is None,
        },
{
    if v.len() == 0 {
        return None;
    }
    assert(decode::items(v@)[0] == v@[0]@);
    match &v[0] {
        Json::Text(t) => if text::same(t.as_str(), "approved") && v.len() == 1 {
            Some(ApprovalDecision::Approved)
        } else if text::same(t.as_str(), "rejected") && v.len() == 2 {
            match decode::opt_text(&v[1]) {
                Ok(reason) => Some(ApprovalDecision::Rejected { reason }),
                Err(_) => None,
            }
        } else if text::same(t.as_str(), "modified") && v.len() == 2 {
            Some(ApprovalDecision::Modified { payload: v[1].clone() })
        } else {
            None
        },
        _ => None,
    }
}

impl ApprovalDecision {
    /// The JSON form.
    pub fn to_json(&self) -> (r: Json)
        ensures
            r@ == self@.json(),
    {
        let mut m: TextMap<Json> = TextMap::new();
        match self {
            ApprovalDecision::Approved => {
                m.insert("type".to_string(), Json::text("approved"));
            },
            ApprovalDecision::Rejected { reason } => {
                m.insert("type".to_string(), Json::text("rejected"));
                m.insert(
                    "reason".to_string(),
                    match reason {
                        Some(s) => Json::text(s.as_str()),
                        None => Json::Null,
                    },
                );
            },
            ApprovalDecision::Modified { payload } => {
                m.insert("type".to_string(), Json::text("modified"));
                m.insert("payload".to_string(), payload.clone());
            },
        }
        let r = Json::Object(m);
        assert(r@->Object_0 =~= self@.json()->Object_0);
        r
    }

    /// Read a decision out of a JSON value.
    pub fn from_json(v: &Json) -> (r: Option<ApprovalDecision>)
        ensures
            r matches Some(d) ==> decision_of(v@) == Some(d@),
            r is None ==> decision_of(v@) is None,
    {
        if let Json::List(items) = v {
            proof {
                json::lemma_list_view(*items);
            }
            return read_decision_in_order(items);
        }
        match v.get("type") {
            Some(Json::Text(t)) => if text::same(t.as_str(), "approved") {
                Some(ApprovalDecision::Approved)
            } else if text::same(t.as_str(), "rejected") {
                match decode::opt_text_field(v.get("reason")) {
                    Ok(reason) => Some(ApprovalDecision::Rejected { reason }),
                    Err(_) => None,
                }
            } else if text::same(t.as_str(), "modified") {
                match v.get("payload") {
                    Some(payload) => Some(ApprovalDecision::Modified { payload: payload.clone() }),
                    None => None,
                }
            } else {
                None
            },
            _ => None,
        }
    }
}

/// A decision read out of its own JSON form is the decision.
pub proof fn law_decision_round_trip(d: DecisionView)
    ensures
        decision_of(d.json()) == Some(d),
{
    lemma_field_names();
    assert("approved"@ != "rejected"@ && "approved"@ != "modified"@ && "rejected"@ != "modified"@);
}

/// A decision on its way to the agent that waits for it.
#[derive(Debug, PartialEq)]
pub struct ResumeRequest {
    pub session_id: String,
    pub approval_id: String,
    pub decision: ApprovalDecision,
}

/// A `ResumeRequest` as a mathematical value.
pub struct RequestView {
    pub session_id: Seq<char>,
    pub approval_id: Seq<char>,
    pub decision: DecisionView,
}

impl View for ResumeRequest {
    type V = RequestView;

    open spec fn view(&self) -> RequestView {
        RequestView {
            session_id: self.session_id@,
            approval_id: self.approval_id@,
            decision: self.decision@,
        }
    }
}

impl RequestView {
    /// The JSON form.
    pub open spec fn json(self) -> JsonView {
        JsonView::Object(
            map![
                "session_id"@ => JsonView::Text(self.session_id),
                "approval_id"@ => JsonView::Text(self.approval_id),
                "decision"@ => self.decision.json(),
            ],
        )
    }
}

/// The request that three fields make.
pub open spec fn request_from(
    session_id: Option<JsonView>,
    approval_id: Option<JsonView>,
    decision: Option<JsonView>,
) -> Option<RequestView> {
    match (session_id, approval_id, decision) {
        (Some(JsonView::Text(session_id)), Some(JsonView::Text(approval_id)), Some(d)) => match decision_of(d) {
            Some(decision) => Some(RequestView { session_id, approval_id, decision }),
            None => None,
        },
        _ => None,
    }
}

/// The request that a JSON value stands for: an object, or a list of the fields in
/// their order.
pub open spec fn request_of(v: JsonView) -> Option<RequestView> {
    match v {
        JsonView::List(s) => if s.len() == 3 {
            request_from(Some(s[0]), Some(s[1]), Some(s[2]))
        } else {
            None
        },
        _ => request_from(
            json::member(v, "session_id"@),
            json::member(v, "approval_id"@),
            json::member(v, "decision"@),
        ),
    }
}

/// See `request_from`.
fn read_request(session_id: Option<&Json>, approval_id: Option<&Json>, decision: Option<&Json>) -> (r: Option<
    ResumeRequest,
>)
    ensures
        match r {
            Some(q) => request_from(
                decode::seen(session_id),
                decode::seen(approval_id),
                decode::seen(decision),
            ) == Some(q@),
            None => request_from(
                decode::seen(session_id),
                decode::seen(approval_id),
                decode::seen(decision),
            ) is None,
        },
{
    match (session_id, approval_id, decision) {
        (Some(Json::Text(session_id)), Some(Json::Text(approval_id)), Some(d)) => match ApprovalDecision::from_json(d) {
            Some(decision) => Some(
                ResumeRequest {
                    session_id: session_id.clone(),
                    approval_id: approval_id.clone(),
                    decision,
                },
            ),
            None => None,
        },
        _ => None,
    }
}

impl ResumeRequest {
    /// The JSON form.
    pub fn to_json(&self) -> (r: Json)
        ensures
            r@ == self@.json(),
    {
        let mut m: TextMap<Json> = TextMap::new();
        m.insert("session_id".to_string(), Json::text(self.session_id.as_str()));
        m.insert("approval_id".to_string(), Json::text(self.approval_id.as_str()));
        m.insert("decision".to_string(), self.decision.to_json());
        let r = Json::Object(m);
        assert(r@->Object_0 =~= self@.json()->Object_0);
        r
    }

    /// Read a request out of a JSON value.
    pub fn from_json(v: &Json) -> (r: Option<ResumeRequest>)
        ensures
            r matches Some(d) ==> request_of(v@) == Some(d@),
            r is None ==> request_of(v@) is None,
    {
        match v {
            Json::List(items) => {
                proof {
                    json::lemma_list_view(*items);
                }
                if items.len() == 3 {
                    read_request(Some(&items[0]), Some(&items[1]), Some(&items[2]))
                } else {
                    None
                }
            },
            _ => read_request(v.get("session_id"), v.get("approval_id"), v.get("decision")),
        }
    }
}

/// A request read out of its own JSON form is the request.
pub proof fn law_resume_request_round_trip(q: RequestView)
    ensures
        request_of(q.json()) == Some(q),
{
    lemma_field_names();
    law_decision_round_trip(q.decision);
}

} // verus!

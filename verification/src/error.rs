//! What can go wrong, and how a run ends.

use vstd::prelude::*;
use vstd::string::*;
use crate::decode;
use crate::ids;
use crate::json;
use crate::json::{Json, JsonView};
use crate::text;
use crate::text_map::TextMap;

verus! {

/// A failure of an agent, of the way to it, or of the orchestration.
#[derive(Debug, PartialEq, Eq)]
pub enum AetherError {
    AgentFailed { node: String, message: String },
    AgentTimeout { node: String },
    TransportError { node: String, message: String },
    RegistryError { message: String },
    WorkflowError { message: String },
}

/// An `AetherError` as a mathematical value.
pub enum ErrorView {
    AgentFailed { node: Seq<char>, message: Seq<char> },
    AgentTimeout { node: Seq<char> },
    TransportError { node: Seq<char>, message: Seq<char> },
    RegistryError { message: Seq<char> },
    WorkflowError { message: Seq<char> },
}

impl View for AetherError {
    type V = ErrorView;

    open spec fn view(&self) -> ErrorView {
        match *self {
            AetherError::AgentFailed { node, message } => ErrorView::AgentFailed {
                node: node@,
                message: message@,
            },
            AetherError::AgentTimeout { node } => ErrorView::AgentTimeout { node: node@ },
            AetherError::TransportError { node, message } => ErrorView::TransportError {
                node: node@,
                message: message@,
            },
            AetherError::RegistryError { message } => ErrorView::RegistryError {
                message: message@,
            },
            AetherError::WorkflowError { message } => ErrorView::WorkflowError {
                message: message@,
            },
        }
    }
}

impl ErrorView {
    /// The words for the error.
    pub open spec fn words(self) -> Seq<char> {
        match self {
            ErrorView::AgentFailed { node, message } => "agent '"@ + node + "' failed: "@ + message,
            ErrorView::AgentTimeout { node } => "agent '"@ + node + "' timed out"@,
            ErrorView::TransportError { node, message } => "transport error on '"@ + node + "': "@
                + message,
            ErrorView::RegistryError { message } => "registry error: "@ + message,
            ErrorView::WorkflowError { message } => "workflow error: "@ + message,
        }
    }
}

impl AetherError {
    /// The words for the error.
    pub fn to_string(&self) -> (r: String)
        ensures
            r@ == self@.words(),
    {
        match self {
            AetherError::AgentFailed { node, message } => {
                let mut s = text::cat("agent '", node.as_str());
                s.append("' failed: ");
                s.append(message.as_str());
                s
            },
            AetherError::AgentTimeout { node } => {
                let mut s = text::cat("agent '", node.as_str());
                s.append("' timed out");
                s
            },
            AetherError::TransportError { node, message } => {
                let mut s = text::cat("transport error on '", node.as_str());
                s.append("': ");
                s.append(message.as_str());
                s
            },
            AetherError::RegistryError { message } => text::cat("registry error: ", message.as_str()),
            AetherError::WorkflowError { message } => text::cat("workflow error: ", message.as_str()),
        }
    }
}

impl Clone for AetherError {
    fn clone(&self) -> (r: AetherError)
        ensures
            r@ == self@,
    {
        match self {
            AetherError::AgentFailed { node, message } => AetherError::AgentFailed {
                node: node.clone(),
                message: message.clone(),
            },
            AetherError::AgentTimeout { node } => AetherError::AgentTimeout { node: node.clone() },
            AetherError::TransportError { node, message } => AetherError::TransportError {
                node: node.clone(),
                message: message.clone(),
            },
            AetherError::RegistryError { message } => AetherError::RegistryError {
                message: message.clone(),
            },
            AetherError::WorkflowError { message } => AetherError::WorkflowError {
                message: message.clone(),
            },
        }
    }
}

/// A `WorkflowError` with the given words.
pub fn workflow_error(message: &str) -> (r: AetherError)
    ensures
        r@ == (ErrorView::WorkflowError { message: message@ }),
{
    AetherError::WorkflowError { message: message.to_string() }
}

/// How a run ended.
#[derive(Debug, PartialEq)]
pub enum Outcome {
    Success(Json),
    Failed { node: String, error: String },
    Timeout { node: String },
    Suspended { workflow_id: u128 },
}

/// An `Outcome` as a mathematical value.
pub enum OutcomeView {
    Success(JsonView),
    Failed { node: Seq<char>, error: Seq<char> },
    Timeout { node: Seq<char> },
    Suspended { workflow_id: u128 },
}

impl View for Outcome {
    type V = OutcomeView;

    open spec fn view(&self) -> OutcomeView {
        match *self {
            Outcome::Success(v) => OutcomeView::Success(v@),
            Outcome::Failed { node, error } => OutcomeView::Failed { node: node@, error: error@ },
            Outcome::Timeout { node } => OutcomeView::Timeout { node: node@ },
            Outcome::Suspended { workflow_id } => OutcomeView::Suspended { workflow_id },
        }
    }
}

impl OutcomeView {
    /// The JSON form: one member, named after the way the run ended.
    pub open spec fn json(self) -> JsonView {
        match self {
            OutcomeView::Success(v) => JsonView::Object(map!["Success"@ => v]),
            OutcomeView::Failed { node, error } => JsonView::Object(
                map!["Failed"@ => JsonView::Object(
                    map!["node"@ => JsonView::Text(node), "error"@ => JsonView::Text(error)],
                )],
            ),
            OutcomeView::Timeout { node } => JsonView::Object(
                map!["Timeout"@ => JsonView::Object(map!["node"@ => JsonView::Text(node)])],
            ),
            OutcomeView::Suspended { workflow_id } => JsonView::Object(
                map!["Suspended"@ => JsonView::Object(
                    map!["workflow_id"@ => JsonView::Text(ids::id_text(workflow_id))],
                )],
            ),
        }
    }
}

/// The field of an outcome: a member of an object, or an item of a list that holds
/// all `n` fields in their order.
pub open spec fn field(v: JsonView, name: Seq<char>, i: int, n: nat) -> Option<JsonView> {
    match v {
        JsonView::List(s) => if s.len() == n {
            decode::item(s, i)
        } else {
            None
        },
        _ => json::member(v, name),
    }
}

/// See `field`.
fn get_field<'a>(v: &'a Json, name: &str, i: usize, n: usize) -> (r: Option<&'a Json>)
    ensures
        decode::seen(r) == field(v@, name@, i as int, n as nat),
{
    match v {
        Json::List(items) => {
            proof {
                json::lemma_list_view(*items);
            }
            if items.len() == n {
                decode::at(items, i)
            } else {
                None
            }
        },
        _ => v.get(name),
    }
}

/// The outcome that a JSON value stands for: an object of one member.
pub open spec fn outcome_of(v: JsonView) -> Option<OutcomeView> {
    match v {
        JsonView::Object(m) => if m.dom() == set!["Success"@] {
            Some(OutcomeView::Success(m["Success"@]))
        } else if m.dom() == set!["Failed"@] {
            match (field(m["Failed"@], "node"@, 0, 2), field(m["Failed"@], "error"@, 1, 2)) {
                (Some(JsonView::Text(node)), Some(JsonView::Text(error))) => Some(
                    OutcomeView::Failed { node, error },
                ),
                _ => None,
            }
        } else if m.dom() == set!["Timeout"@] {
            match field(m["Timeout"@], "node"@, 0, 1) {
                Some(JsonView::Text(node)) => Some(OutcomeView::Timeout { node }),
                _ => None,
            }
        } else if m.dom() == set!["Suspended"@] {
            match field(m["Suspended"@], "workflow_id"@, 0, 1) {
                Some(JsonView::Text(id)) => match ids::id_parse(id) {
                    Ok(workflow_id) => Some(OutcomeView::Suspended { workflow_id }),
                    Err(_) => None,
                },
                _ => None,
            }
        } else {
            None
        },
        _ => None,
    }
}

/// An object of one member.
fn tagged(name: &str, v: Json) -> (r: Json)
    ensures
        r@ == JsonView::Object(map![name@ => v@]),
        r@->Object_0.dom() == set![name@],
        forall|x: Seq<char>| r@->Object_0.dom() == #[trigger] set![x] ==> x == name@,
{
    let ghost x = v@;
    let mut m: TextMap<Json> = TextMap::new();
    m.insert(name.to_string(), v);
    let r = Json::Object(m);
    assert(r@->Object_0 =~= map![name@ => x]);
    assert(r@->Object_0.dom() =~= set![name@]);
    assert(r@->Object_0.dom().contains(name@));
    r
}

impl Outcome {
    /// The JSON form, which stands for the outcome again.
    pub fn to_json(&self) -> (r: Json)
        ensures
            r@ == self@.json(),
            outcome_of(r@) == Some(self@),
    {
        proof {
            lemma_tags();
        }
        match self {
            Outcome::Success(v) => tagged("Success", v.clone()),
            Outcome::Failed { node, error } => {
                let mut m: TextMap<Json> = TextMap::new();
                m.insert("node".to_string(), Json::text(node.as_str()));
                m.insert("error".to_string(), Json::text(error.as_str()));
                let inner = Json::Object(m);
                assert(inner@->Object_0 =~= map!["node"@ => JsonView::Text(node@), "error"@ => JsonView::Text(error@)]);
                tagged("Failed", inner)
            },
            Outcome::Timeout { node } => tagged("Timeout", tagged("node", Json::text(node.as_str()))),
            Outcome::Suspended { workflow_id } => tagged(
                "Suspended",
                tagged("workflow_id", Json::string(ids::text_of_id(*workflow_id))),
            ),
        }
    }

    /// The outcome that a JSON value stands for.
    pub fn from_json(v: &Json) -> (r: Option<Outcome>)
        ensures
            r matches Some(o) ==> outcome_of(v@) == Some(o@),
            r is None ==> outcome_of(v@) is None,
    {
        match v {
            Json::Object(m) => {
                proof {
                    lemma_tags();
                    assert(v@->Object_0.dom() =~= m@.dom());
                }
                if m.len() != 1 {
                    proof {
                        lemma_singletons(m@.dom());
                    }
                    return None;
                }
                let (k, x) = m.at(0);
                proof {
                    lemma_only(m@.dom(), k@);
                }
                if text::same(k.as_str(), "Success") {
                    Some(Outcome::Success(x.clone()))
                } else if text::same(k.as_str(), "Failed") {
                    match (get_field(x, "node", 0, 2), get_field(x, "error", 1, 2)) {
                        (Some(Json::Text(node)), Some(Json::Text(error))) => Some(
                            Outcome::Failed { node: node.clone(), error: error.clone() },
                        ),
                        _ => None,
                    }
                } else if text::same(k.as_str(), "Timeout") {
                    match get_field(x, "node", 0, 1) {
                        Some(Json::Text(node)) => Some(Outcome::Timeout { node: node.clone() }),
                        _ => None,
                    }
                } else if text::same(k.as_str(), "Suspended") {
                    match get_field(x, "workflow_id", 0, 1) {
                        Some(Json::Text(id)) => match ids::parse_id(id.as_str()) {
                            Ok(workflow_id) => Some(Outcome::Suspended { workflow_id }),
                            Err(_) => None,
                        },
                        _ => None,
                    }
                } else {
                    None
                }
            },
            _ => None,
        }
    }
}

impl Clone for Outcome {
    fn clone(&self) -> (r: Outcome)
        ensures
            r@ == self@,
    {
        match self {
            Outcome::Success(v) => Outcome::Success(v.clone()),
            Outcome::Failed { node, error } => Outcome::Failed {
                node: node.clone(),
                error: error.clone(),
            },
            Outcome::Timeout { node } => Outcome::Timeout { node: node.clone() },
            Outcome::Suspended { workflow_id } => Outcome::Suspended { workflow_id: *workflow_id },
        }
    }
}

/// The names of the members are different texts.
pub proof fn lemma_tags()
    ensures
        "Success"@ != "Failed"@,
        "Success"@ != "Timeout"@,
        "Success"@ != "Suspended"@,
        "Failed"@ != "Timeout"@,
        "Failed"@ != "Suspended"@,
        "Timeout"@ != "Suspended"@,
        "node"@ != "error"@,
{
    reveal_strlit("Success");
    reveal_strlit("Failed");
    reveal_strlit("Timeout");
    reveal_strlit("Suspended");
    reveal_strlit("node");
    reveal_strlit("error");
    assert("Success"@[0] != "Timeout"@[0]);
    assert("Success"@.len() == 7 && "Failed"@.len() == 6 && "Suspended"@.len() == 9);
    assert("node"@.len() == 4 && "error"@.len() == 5);
}

/// A set that has not one member is no singleton.
proof fn lemma_singletons(s: Set<Seq<char>>)
    requires
        s.len() != 1,
    ensures
        forall|x: Seq<char>| s != #[trigger] Set::<Seq<char>>::empty().insert(x),
{
    assert forall|x: Seq<char>| s != #[trigger] Set::<Seq<char>>::empty().insert(x) by {
        assert(Set::<Seq<char>>::empty().insert(x).len() == 1);
    }
}

/// A set of one member is the singleton of that member, and of no other.
proof fn lemma_only(s: Set<Seq<char>>, k: Seq<char>)
    requires
        s.finite(),
        s.len() == 1,
        s.contains(k),
    ensures
        s == Set::<Seq<char>>::empty().insert(k),
        forall|x: Seq<char>| s == #[trigger] Set::<Seq<char>>::empty().insert(x) ==> x == k,
{
    assert(s.remove(k).len() == 0);
    assert(s =~= Set::<Seq<char>>::empty().insert(k)) by {
        assert forall|x: Seq<char>| s.contains(x) implies x == k by {
            if x != k {
                assert(s.remove(k).contains(x));
                assert(s.remove(k).len() > 0);
            }
        }
    }
}

} // verus!

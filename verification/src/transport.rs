//! The way to an agent: addresses, what is sent, and what an answer is taken for.

use vstd::prelude::*;
use vstd::string::*;
use crate::envelope;
use crate::envelope::{payload_text, Envelope, EnvelopeView};
use crate::error::{AetherError, ErrorView};
use crate::json;
use crate::json::{Json, JsonView};
use crate::text;
use crate::text_map::TextMap;
use crate::types::copy_labels;

verus! {

/// A text without the slashes at its end.
pub open spec fn trimmed(s: Seq<char>) -> Seq<char>
    decreases s.len(),
{
    if s.len() > 0 && s.last() == '/' {
        trimmed(s.drop_last())
    } else {
        s
    }
}

/// A path below an address, with one slash between them.
pub fn endpoint(base: &str, path: &str) -> (r: String)
    ensures
        r@ == trimmed(base@) + path@,
{
    let cs = text::chars(base);
    let mut n: usize = cs.len();
    assert(base@.take(n as int) =~= base@);
    while n > 0 && cs[n - 1] == '/'
        invariant
            n <= cs@.len(),
            cs@ == base@,
            trimmed(base@) == trimmed(base@.take(n as int)),
        decreases n,
    {
        assert(base@.take(n as int).drop_last() =~= base@.take(n - 1));
        n -= 1;
    }
    text::cat(base.substring_char(0, n), path)
}

/// Where an agent takes its tasks.
pub fn invoke_url(http_url: &str) -> (r: String)
    ensures
        r@ == trimmed(http_url@) + "/aether/invoke"@,
{
    endpoint(http_url, "/aether/invoke")
}

/// Where an agent takes decisions.
pub fn resume_url(http_url: &str) -> (r: String)
    ensures
        r@ == trimmed(http_url@) + "/aether/resume"@,
{
    endpoint(http_url, "/aether/resume")
}

/// Where an agent tells that it is well.
pub fn health_url(http_url: &str) -> (r: String)
    ensures
        r@ == trimmed(http_url@) + "/health"@,
{
    endpoint(http_url, "/health")
}

/// The members of an object; none of another value.
pub open spec fn members(v: JsonView) -> Map<Seq<char>, JsonView> {
    match v {
        JsonView::Object(m) => m,
        _ => Map::empty(),
    }
}

/// A message as an agent reads it: the plain text of the task stands in its payload
/// under `input`, beside the members that the payload has.
pub open spec fn flattened(e: EnvelopeView) -> EnvelopeView {
    EnvelopeView {
        payload: JsonView::Object(
            members(e.payload).insert("input"@, JsonView::Text(envelope::flat_text(e.payload))),
        ),
        ..e
    }
}

/// See `flattened`.
pub fn flatten(msg: &Envelope) -> (r: Envelope)
    ensures
        r@ == flattened(msg@),
{
    let input = Json::string(payload_text(&msg.payload));
    let copy = msg.payload.clone();
    let mut m: TextMap<Json> = match copy {
        Json::Object(m) => m,
        _ => TextMap::new(),
    };
    let ghost before = json::json_view(Json::Object(m))->Object_0;
    assert(before =~= members(msg@.payload));
    m.insert("input".to_string(), input);
    let payload = Json::Object(m);
    assert(payload@->Object_0 =~= flattened(msg@).payload->Object_0);
    Envelope { id: msg.id, kind: msg.kind, payload, metadata: copy_labels(&msg.metadata) }
}

/// An agent gets the text of its task under `input` and every other member of the
/// payload as it was; a message that was made so once stays as it is.
pub proof fn law_flattening_keeps_members(e: EnvelopeView, k: Seq<char>)
    requires
        k != "input"@,
    ensures
        json::member(flattened(e).payload, k) == json::member(e.payload, k),
        json::member(flattened(e).payload, "input"@) == Some(JsonView::Text(envelope::flat_text(e.payload))),
        flattened(flattened(e)) == flattened(e),
{
    let once = flattened(e).payload;
    assert(envelope::leading_text(once) == Some(envelope::flat_text(e.payload)));
    assert(members(once).insert("input"@, JsonView::Text(envelope::flat_text(once))) =~= members(once));
}

/// A message that was read, or the complaint of its reader, as a mathematical value.
pub open spec fn parsed_view(parsed: Result<Envelope, String>) -> Result<EnvelopeView, Seq<char>> {
    match parsed {
        Ok(e) => Ok(e@),
        Err(e) => Err(e@),
    }
}

/// The message in a text, or the complaint about the text.
pub open spec fn message_in(text: Seq<char>) -> Result<EnvelopeView, Seq<char>> {
    match json::json_parse(text) {
        Err(e) => Err(e),
        Ok(v) => envelope::envelope_of(v),
    }
}

/// What an answer is taken for, once it was read.
pub open spec fn answered(node: Seq<char>, parsed: Result<EnvelopeView, Seq<char>>) -> Result<
    EnvelopeView,
    ErrorView,
> {
    match parsed {
        Ok(e) => Ok(e),
        Err(e) => Err(
            ErrorView::TransportError { node, message: "failed to decode response: "@ + e },
        ),
    }
}

/// Take in the answer of an agent that was read, or not.
pub fn take_answer(node_name: &str, parsed: Result<Envelope, String>) -> (r: Result<Envelope, AetherError>)
    ensures
        match r {
            Ok(e) => answered(node_name@, parsed_view(parsed)) == Ok::<EnvelopeView, ErrorView>(e@),
            Err(e) => answered(node_name@, parsed_view(parsed)) == Err::<EnvelopeView, ErrorView>(e@),
        },
{
    match parsed {
        Ok(e) => Ok(e),
        Err(e) => Err(
            AetherError::TransportError {
                node: node_name.to_string(),
                message: text::cat("failed to decode response: ", e.as_str()),
            },
        ),
    }
}

/// Read a message by way of a JSON value. Of a member that is repeated the last
/// counts.
fn read_message(s: &str) -> (r: Result<Envelope, String>)
    ensures
        parsed_view(r) == message_in(s@),
{
    match Json::parse(s) {
        Err(e) => Err(e),
        Ok(v) => Envelope::from_json(&v),
    }
}

/// Read the answer of an agent by way of a JSON value. Of a member that is repeated
/// the last counts.
pub fn read_answer(node_name: &str, body: &str) -> (r: Result<Envelope, AetherError>)
    ensures
        match r {
            Ok(e) => answered(node_name@, message_in(body@)) == Ok::<EnvelopeView, ErrorView>(e@),
            Err(e) => answered(node_name@, message_in(body@)) == Err::<EnvelopeView, ErrorView>(e@),
        },
{
    take_answer(node_name, read_message(body))
}

/// A line for an agent that reads one message per line.
pub fn write_line(msg: &Envelope) -> (r: String)
    ensures
        r@ == json::json_text(msg@.json()) + "\n"@,
{
    let mut line = msg.to_json().to_text();
    line.append("\n");
    line
}

/// What the answer of such an agent is taken for, once it was read; `None` is the end
/// of its output.
pub open spec fn line_answered(node: Seq<char>, parsed: Option<Result<EnvelopeView, Seq<char>>>) -> Result<
    EnvelopeView,
    ErrorView,
> {
    match parsed {
        None => Err(
            ErrorView::TransportError { node, message: "agent closed connection (EOF)"@ },
        ),
        Some(Ok(e)) => Ok(e),
        Some(Err(message)) => Err(ErrorView::TransportError { node, message }),
    }
}

/// A line that was read, or not, or the end of the output, as a mathematical value.
pub open spec fn line_view(parsed: Option<Result<Envelope, String>>) -> Option<
    Result<EnvelopeView, Seq<char>>,
> {
    match parsed {
        None => None,
        Some(r) => Some(parsed_view(r)),
    }
}

/// See `line_answered`.
pub fn take_line(node_name: &str, parsed: Option<Result<Envelope, String>>) -> (r: Result<
    Envelope,
    AetherError,
>)
    ensures
        match r {
            Ok(e) => line_answered(node_name@, line_view(parsed)) == Ok::<EnvelopeView, ErrorView>(e@),
            Err(e) => line_answered(node_name@, line_view(parsed)) == Err::<EnvelopeView, ErrorView>(e@),
        },
{
    match parsed {
        None => Err(
            AetherError::TransportError {
                node: node_name.to_string(),
                message: "agent closed connection (EOF)".to_string(),
            },
        ),
        Some(Ok(e)) => Ok(e),
        Some(Err(message)) => Err(
            AetherError::TransportError { node: node_name.to_string(), message },
        ),
    }
}

/// Read a line from such an agent by way of a JSON value. Of a member that is
/// repeated the last counts.
pub fn read_line(node_name: &str, line: Option<&str>) -> (r: Result<Envelope, AetherError>)
    ensures
        ({
            let parsed = match line {
                None => None,
                Some(s) => Some(message_in(s@)),
            };
            match r {
                Ok(e) => line_answered(node_name@, parsed) == Ok::<EnvelopeView, ErrorView>(e@),
                Err(e) => line_answered(node_name@, parsed) == Err::<EnvelopeView, ErrorView>(e@),
            }
        }),
{
    let parsed = match line {
        None => None,
        Some(s) => Some(read_message(s)),
    };
    take_line(node_name, parsed)
}

} // verus!

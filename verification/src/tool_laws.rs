//! What the tools answer, told by the members of requests and answers.

use vstd::prelude::*;
use vstd::string::*;
use crate::dag;
use crate::engine::EngineView;
use crate::error;
use crate::error::OutcomeView;
use crate::execution_store::{ExecutionStatus, ExecutionView};
use crate::ids;
use crate::job::JobView;
use crate::json;
use crate::json::{JsonView, NumberView};
use crate::jsonrpc;
use crate::jsonrpc::{HandledView, RequestView, ResponseView};
use crate::orchestrator;
use crate::wire_laws;

verus! {

/// Whether a JSON object has exactly one member.
pub open spec fn has_only(v: JsonView, key: Seq<char>, x: JsonView) -> bool {
    &&& v is Object
    &&& json::member(v, key) == Some(x)
    &&& forall|k: Seq<char>| (#[trigger] json::member(v, k)) is Some ==> k == key
}

/// Whether a JSON object has exactly two members.
pub open spec fn has_both(v: JsonView, a: Seq<char>, x: JsonView, b: Seq<char>, y: JsonView) -> bool {
    &&& v is Object
    &&& json::member(v, a) == Some(x)
    &&& json::member(v, b) == Some(y)
    &&& forall|k: Seq<char>| (#[trigger] json::member(v, k)) is Some ==> k == a || k == b
}

/// What is told of a job: that it runs, and nothing else; or that it is done, and the
/// outcome it has come to, which can be read again.
pub open spec fn tells_job(v: JsonView, j: JobView) -> bool {
    match j {
        JobView::Running => has_only(v, "status"@, JsonView::Text("running"@)),
        JobView::Done { result } => {
            &&& v is Object
            &&& json::member(v, "status"@) == Some(JsonView::Text("done"@))
            &&& json::member(v, "result"@) is Some
            &&& wire_laws::is_outcome(json::member(v, "result"@)->0, result)
            &&& forall|k: Seq<char>| (#[trigger] json::member(v, k)) is Some ==> k == "status"@ || k
                == "result"@
        },
    }
}

/// A job that runs is told as running, without a result. One that has ended is told as
/// done, with the outcome that it has come to, and its outcome is read out of what is
/// told.
pub proof fn law_job_is_told(j: JobView)
    ensures
        tells_job(j.json(), j),
        j matches JobView::Done { result } ==> (wire_laws::id_reads_back(result)
            ==> error::outcome_of(json::member(j.json(), "result"@)->0) == Some(result)),
        j is Running ==> json::member(j.json(), "result"@) is None,
{
    lemma_job_members();
    if let JobView::Done { result } = j {
        wire_laws::law_outcome_is_written(result);
        if wire_laws::id_reads_back(result) {
            wire_laws::law_outcome_round_trip(result);
        }
    }
}

/// The members of what is told of a job are different texts.
pub proof fn lemma_job_members()
    ensures
        "status"@ != "result"@,
{
    reveal_strlit("status");
    reveal_strlit("result");
    assert("status"@[0] == 's' && "result"@[0] == 'r');
}

/// Whether a request calls a tool.
pub open spec fn calls(q: RequestView, tool: Seq<char>) -> bool {
    &&& q.id is Some
    &&& q.method == "tools/call"@
    &&& json::member(q.params, "name"@) == Some(JsonView::Text(tool))
}

/// The argument of a tool call.
pub open spec fn argument_of(q: RequestView, key: Seq<char>) -> Option<JsonView> {
    match json::member(q.params, "arguments"@) {
        Some(args) => json::member(args, key),
        None => None,
    }
}

/// The text in which a tool call names an execution; empty where it is no text or not
/// there.
pub open spec fn named_text(q: RequestView) -> Seq<char> {
    match argument_of(q, "workflow_id"@) {
        Some(JsonView::Text(s)) => s,
        _ => Seq::empty(),
    }
}

/// The id of an execution that a tool call names, where it names one.
pub open spec fn named_execution(q: RequestView) -> Option<u128> {
    match ids::id_parse(named_text(q)) {
        Ok(w) => Some(w),
        Err(_) => None,
    }
}

/// Whether an answer carries the id of its request and a value as its content: one
/// block of text that holds the JSON text of the value.
pub open spec fn answers_with(r: ResponseView, q: RequestView, value: JsonView) -> bool {
    let content = json::member(r.result->0, "content"@);
    &&& r.jsonrpc == "2.0"@
    &&& r.id == q.id
    &&& r.error is None
    &&& r.result is Some
    &&& content is Some
    &&& has_only(r.result->0, "content"@, content->0)
    &&& content->0 is List
    &&& (content->0->List_0).len() == 1
    &&& has_both(
        (content->0->List_0)[0],
        "type"@,
        JsonView::Text("text"@),
        "text"@,
        JsonView::Text(json::json_text(value)),
    )
}

/// Whether a request is answered with an error.
pub open spec fn refuses(h: HandledView, q: RequestView, code: int, message: Seq<char>) -> bool {
    h == HandledView::Reply(
        ResponseView { jsonrpc: "2.0"@, id: q.id, result: None, error: Some((code, message)) },
    )
}

/// The names of tools are different texts.
proof fn lemma_tools()
    ensures
        "submit_goal"@.len() == 11,
        "get_result"@.len() == 10,
        "list_capabilities"@.len() == 17,
        "expire_gates"@.len() == 12,
        "list_recoverable"@.len() == 16,
        "recover_workflow"@.len() == 16,
        "list_recoverable"@ != "recover_workflow"@,
        "initialize"@ != "tools/call"@,
        "tools/list"@ != "tools/call"@,
        "initialize"@ != "tools/list"@,
{
    reveal_strlit("submit_goal");
    reveal_strlit("get_result");
    reveal_strlit("list_capabilities");
    reveal_strlit("expire_gates");
    reveal_strlit("list_recoverable");
    reveal_strlit("recover_workflow");
    reveal_strlit("initialize");
    reveal_strlit("tools/list");
    reveal_strlit("tools/call");
    assert("list_recoverable"@[0] == 'l' && "recover_workflow"@[0] == 'r');
    assert("initialize"@[0] == 'i' && "tools/call"@[0] == 't' && "tools/list"@[0] == 't');
    assert("tools/list"@[6] == 'l' && "tools/call"@[6] == 'c');
}

proof fn lemma_content(id: Option<JsonView>, q: RequestView, value: JsonView)
    requires
        id == q.id,
    ensures
        answers_with(jsonrpc::result_view(id, jsonrpc::content_json(value)), q, value),
{
    reveal_strlit("type");
    reveal_strlit("text");
    assert("type"@[1] == 'y' && "text"@[1] == 'e');
}

/// A goal that is submitted is taken under the new id, which the answer tells, and is
/// to be run as it came. It runs from then on, and every other job stays as it was.
/// A call without a goal is refused and changes nothing.
pub proof fn law_submit_goal(v: EngineView, q: RequestView, fresh: u128, t: Seq<char>, value: JsonView, other: u128)
    requires
        calls(q, "submit_goal"@),
        has_only(value, "workflow_id"@, JsonView::Text(ids::id_text(fresh))),
        other != fresh,
    ensures
        ({
            let h = jsonrpc::request_handled(v, q, fresh, t);
            let after = jsonrpc::request_engine(v, q, fresh, t);
            match argument_of(q, "goal"@) {
                Some(goal) => {
                    &&& h matches HandledView::Submitted { reply, workflow_id, goal: g } && workflow_id == fresh
                        && g == goal && answers_with(reply, q, value)
                    &&& after.jobs.jobs.dom().contains(fresh)
                    &&& after.jobs.jobs[fresh] is Running
                    &&& after.jobs.jobs.dom().contains(other) <==> v.jobs.jobs.dom().contains(other)
                    &&& after.jobs.jobs[other] == v.jobs.jobs[other]
                    &&& after.jobs.completed == v.jobs.completed
                    &&& after.registry == v.registry
                    &&& after.executions == v.executions
                },
                None => refuses(h, q, -32602, "missing 'goal' argument"@) && after == v,
            }
        }),
{
    lemma_tools();
    let w = jsonrpc::single("workflow_id"@, JsonView::Text(ids::id_text(fresh)));
    assert(value->Object_0 =~= w->Object_0) by {
        assert forall|k: Seq<char>| (value->Object_0).dom().contains(k) <==> (w->Object_0).dom().contains(k) by {
            assert(json::member(value, k) is Some <==> (value->Object_0).dom().contains(k));
        }
    }
    lemma_content(q.id, q, w);
}

/// A job that is asked for is told as it stands. An id that is none is refused, and so
/// is one that no job has. The engine is as it was.
pub proof fn law_get_result(v: EngineView, q: RequestView, fresh: u128, t: Seq<char>)
    requires
        calls(q, "get_result"@),
    ensures
        ({
            let h = jsonrpc::request_handled(v, q, fresh, t);
            &&& jsonrpc::request_engine(v, q, fresh, t) == v
            &&& match named_execution(q) {
                None => refuses(h, q, -32602, "invalid 'workflow_id'"@),
                Some(w) => if v.jobs.jobs.dom().contains(w) {
                    h is Reply && exists|told: JsonView| #[trigger]
                        tells_job(told, v.jobs.jobs[w]) && answers_with(h->Reply_0, q, told)
                } else {
                    refuses(h, q, -32001, "unknown workflow_id: "@ + named_text(q))
                },
            }
        }),
{
    lemma_tools();
    if let Some(w) = named_execution(q) {
        if v.jobs.jobs.dom().contains(w) {
            let told = v.jobs.jobs[w].json();
            law_job_is_told(v.jobs.jobs[w]);
            lemma_content(q.id, q, told);
            assert(tells_job(told, v.jobs.jobs[w]));
        }
    }
}

/// Whether a JSON value lists texts in their order.
pub open spec fn lists_texts(v: JsonView, s: Seq<Seq<char>>) -> bool {
    &&& v is List
    &&& (v->List_0).len() == s.len()
    &&& forall|i: int| 0 <= i < s.len() ==> #[trigger] (v->List_0)[i] == JsonView::Text(s[i])
}

/// The capabilities that are told are those that healthy instances offer.
pub proof fn law_list_capabilities(v: EngineView, q: RequestView, fresh: u128, t: Seq<char>)
    requires
        calls(q, "list_capabilities"@),
    ensures
        ({
            let h = jsonrpc::request_handled(v, q, fresh, t);
            &&& jsonrpc::request_engine(v, q, fresh, t) == v
            &&& h is Reply
            &&& exists|list: JsonView, value: JsonView|
                #![trigger has_only(value, "capabilities"@, list)]
                lists_texts(list, orchestrator::offered(v.registry.entries)) && has_only(
                    value,
                    "capabilities"@,
                    list,
                ) && answers_with(h->Reply_0, q, value)
        }),
{
    lemma_tools();
    let list = dag::texts_json(orchestrator::offered(v.registry.entries));
    let value = jsonrpc::single("capabilities"@, list);
    lemma_content(q.id, q, value);
    assert(has_only(value, "capabilities"@, list));
}

/// Whether a JSON value lists pairs of execution and node, in their order.
pub open spec fn lists_pairs(v: JsonView, s: Seq<(Seq<char>, Seq<char>)>) -> bool {
    &&& v is List
    &&& (v->List_0).len() == s.len()
    &&& forall|i: int|
        0 <= i < s.len() ==> has_both(
            #[trigger] (v->List_0)[i],
            "workflow_id"@,
            JsonView::Text(s[i].0),
            "node_id"@,
            JsonView::Text(s[i].1),
        )
}

/// The gates that are overdue are told and have expired; nothing else changes.
pub proof fn law_expire_gates(v: EngineView, q: RequestView, fresh: u128, t: Seq<char>)
    requires
        calls(q, "expire_gates"@),
    ensures
        ({
            let h = jsonrpc::request_handled(v, q, fresh, t);
            let after = jsonrpc::request_engine(v, q, fresh, t);
            &&& after.executions == v.executions.expired(t)
            &&& after.registry == v.registry
            &&& after.jobs == v.jobs
            &&& h is Reply
            &&& exists|list: JsonView, value: JsonView|
                #![trigger has_only(value, "expired"@, list)]
                lists_pairs(list, v.executions.overdue_pairs(t)) && has_only(value, "expired"@, list)
                    && answers_with(h->Reply_0, q, value)
        }),
{
    lemma_tools();
    reveal_strlit("workflow_id");
    reveal_strlit("node_id");
    assert("workflow_id"@.len() == 11 && "node_id"@.len() == 7);
    let list = jsonrpc::pairs_json(v.executions.overdue_pairs(t));
    let value = jsonrpc::single("expired"@, list);
    lemma_content(q.id, q, value);
    assert(has_only(value, "expired"@, list));
}

/// The word for the standing of an execution.
pub open spec fn standing_word(s: ExecutionStatus) -> Seq<char> {
    match s {
        ExecutionStatus::Running => "running"@,
        ExecutionStatus::Suspended => "suspended"@,
        ExecutionStatus::Succeeded => "succeeded"@,
        ExecutionStatus::Failed => "failed"@,
    }
}

/// Whether a JSON value lists executions with their standing, in their order.
pub open spec fn lists_executions(v: JsonView, s: Seq<ExecutionView>) -> bool {
    &&& v is List
    &&& (v->List_0).len() == s.len()
    &&& forall|i: int|
        0 <= i < s.len() ==> has_both(
            #[trigger] (v->List_0)[i],
            "workflow_id"@,
            JsonView::Text(s[i].workflow_id),
            "status"@,
            JsonView::Text(standing_word(s[i].status)),
        )
}

/// The executions that may be recovered are told with their standing; nothing changes.
pub proof fn law_list_recoverable(v: EngineView, q: RequestView, fresh: u128, t: Seq<char>)
    requires
        calls(q, "list_recoverable"@),
    ensures
        ({
            let h = jsonrpc::request_handled(v, q, fresh, t);
            &&& jsonrpc::request_engine(v, q, fresh, t) == v
            &&& h is Reply
            &&& exists|list: JsonView, value: JsonView|
                #![trigger has_only(value, "recoverable"@, list)]
                lists_executions(list, v.executions.active()) && has_only(value, "recoverable"@, list)
                    && answers_with(h->Reply_0, q, value)
        }),
{
    lemma_tools();
    reveal_strlit("workflow_id");
    reveal_strlit("status");
    assert("workflow_id"@.len() == 11 && "status"@.len() == 6);
    let list = jsonrpc::executions_json(v.executions.active());
    let value = jsonrpc::single("recoverable"@, list);
    lemma_content(q.id, q, value);
    assert(has_only(value, "recoverable"@, list));
}

/// A recovery is made of the execution that is named, for the one who asked. An id that
/// is none is refused. The engine is as it was.
pub proof fn law_recover_workflow(v: EngineView, q: RequestView, fresh: u128, t: Seq<char>)
    requires
        calls(q, "recover_workflow"@),
    ensures
        ({
            let h = jsonrpc::request_handled(v, q, fresh, t);
            &&& jsonrpc::request_engine(v, q, fresh, t) == v
            &&& match named_execution(q) {
                None => refuses(h, q, -32602, "invalid 'workflow_id'"@),
                Some(w) => h == (HandledView::Recover { id: q.id->0, workflow_id: w }),
            }
        }),
{
    lemma_tools();
}

/// A call of a tool that there is not, and a method that there is not, are refused, and
/// change nothing.
pub proof fn law_unknown_names(v: EngineView, q: RequestView, fresh: u128, t: Seq<char>, tool: Seq<char>)
    requires
        q.id is Some,
    ensures
        ({
            let h = jsonrpc::request_handled(v, q, fresh, t);
            let after = jsonrpc::request_engine(v, q, fresh, t);
            &&& q.method != "initialize"@ && q.method != "tools/list"@ && q.method != "tools/call"@ ==> refuses(
                h,
                q,
                -32601,
                "method not found: "@ + q.method,
            ) && after == v
            &&& calls(q, tool) && tool != "submit_goal"@ && tool != "get_result"@ && tool
                != "list_capabilities"@ && tool != "expire_gates"@ && tool != "list_recoverable"@ && tool
                != "recover_workflow"@ ==> refuses(h, q, -32602, "unknown tool: "@ + tool) && after == v
            &&& q.method == "tools/call"@ && !(json::member(q.params, "name"@) matches Some(x) && x is Text)
                ==> refuses(h, q, -32602, "unknown tool: "@ + Seq::<char>::empty()) && after == v
        }),
{
    lemma_tools();
    assert("submit_goal"@ != Seq::<char>::empty());
}

/// The release that is told to clients.
pub open spec fn release() -> Seq<char> {
    "0.1.0"@
}

/// The answer to `initialize` names the protocol, the tools as its ability, and the
/// server; that to `tools/list` lists the tools; and a message that cannot be read is
/// answered without an id, in the words of its reader.
pub proof fn law_greetings(v: EngineView, q: RequestView, fresh: u128, t: Seq<char>, complaint: Seq<char>)
    requires
        q.id is Some,
    ensures
        ({
            let h = jsonrpc::request_handled(v, q, fresh, t);
            let result = h->Reply_0.result->0;
            &&& q.method == "initialize"@ ==> {
                &&& h is Reply && h->Reply_0.id == q.id && h->Reply_0.result is Some && h->Reply_0.error is None
                &&& json::member(result, "protocolVersion"@) == Some(JsonView::Text("2024-11-05"@))
                &&& json::member(result, "capabilities"@) is Some
                &&& json::member(json::member(result, "capabilities"@)->0, "tools"@) is Some
                &&& json::member(result, "serverInfo"@) is Some
                &&& json::member(json::member(result, "serverInfo"@)->0, "name"@) == Some(
                    JsonView::Text("aether-mcp"@),
                )
                &&& json::member(json::member(result, "serverInfo"@)->0, "version"@) == Some(
                    JsonView::Text(release()),
                )
            }
            &&& q.method == "tools/list"@ ==> {
                &&& h is Reply && h->Reply_0.id == q.id && h->Reply_0.result is Some && h->Reply_0.error is None
                &&& json::member(result, "tools"@) == Some(jsonrpc::tools_json())
            }
            &&& jsonrpc::message_handled(v, Err(complaint), fresh, t) == HandledView::Reply(
                ResponseView {
                    jsonrpc: "2.0"@,
                    id: None,
                    result: None,
                    error: Some((-32700int, "parse error: "@ + complaint)),
                },
            )
            &&& jsonrpc::message_engine(v, Err(complaint), fresh, t) == v
            &&& jsonrpc::message_handled(v, Ok(q), fresh, t) == h
            &&& jsonrpc::message_engine(v, Ok(q), fresh, t) == jsonrpc::request_engine(v, q, fresh, t)
        }),
{
    lemma_tools();
    reveal_strlit("protocolVersion");
    reveal_strlit("capabilities");
    reveal_strlit("serverInfo");
    reveal_strlit("name");
    reveal_strlit("version");
    assert("protocolVersion"@.len() == 15 && "capabilities"@.len() == 12 && "serverInfo"@.len() == 10
        && "name"@.len() == 4 && "version"@.len() == 7);
}

/// Whether a JSON value describes a tool that takes one text argument, or none.
pub open spec fn describes(v: JsonView, name: Seq<char>, argument: Option<Seq<char>>) -> bool {
    let schema = json::member(v, "inputSchema"@);
    &&& json::member(v, "name"@) == Some(JsonView::Text(name))
    &&& json::member(v, "description"@) is Some && json::member(v, "description"@)->0 is Text
    &&& schema is Some
    &&& json::member(schema->0, "type"@) == Some(JsonView::Text("object"@))
    &&& json::member(schema->0, "properties"@) is Some
    &&& match argument {
        Some(a) => {
            &&& json::member(schema->0, "required"@) is Some
            &&& lists_texts(json::member(schema->0, "required"@)->0, seq![a])
            &&& json::member(json::member(schema->0, "properties"@)->0, a) is Some
            &&& has_only(
                json::member(json::member(schema->0, "properties"@)->0, a)->0,
                "type"@,
                JsonView::Text("string"@),
            )
        },
        None => json::member(schema->0, "required"@) is None,
    }
}

proof fn lemma_described(name: Seq<char>, description: Seq<char>, argument: Option<Seq<char>>)
    ensures
        describes(jsonrpc::tool_json(name, description, argument), name, argument),
{
    reveal_strlit("name");
    reveal_strlit("description");
    reveal_strlit("inputSchema");
    reveal_strlit("type");
    reveal_strlit("properties");
    reveal_strlit("required");
    assert("name"@.len() == 4 && "description"@.len() == 11 && "inputSchema"@.len() == 11);
    assert("description"@[0] == 'd' && "inputSchema"@[0] == 'i');
    assert("type"@.len() == 4 && "properties"@.len() == 10 && "required"@.len() == 8);
    if let Some(a) = argument {
        let v = jsonrpc::tool_json(name, description, argument);
        let schema = json::member(v, "inputSchema"@)->0;
        assert(json::member(schema, "required"@)->0->List_0 =~= seq![JsonView::Text(a)]);
    }
}

/// The tools that are listed are the six that can be called, and each tells the
/// argument that it needs.
pub proof fn law_listed_tools()
    ensures
        ({
            let v = jsonrpc::tools_json();
            &&& v is List
            &&& (v->List_0).len() == 6
            &&& describes((v->List_0)[0], "submit_goal"@, Some("goal"@))
            &&& describes((v->List_0)[1], "get_result"@, Some("workflow_id"@))
            &&& describes((v->List_0)[2], "list_capabilities"@, None)
            &&& describes((v->List_0)[3], "expire_gates"@, None)
            &&& describes((v->List_0)[4], "list_recoverable"@, None)
            &&& describes((v->List_0)[5], "recover_workflow"@, Some("workflow_id"@))
        }),
{
    let v = jsonrpc::tools_json()->List_0;
    assert forall|name: Seq<char>, description: Seq<char>, argument: Option<Seq<char>>|
        describes(#[trigger] jsonrpc::tool_json(name, description, argument), name, argument) by {
        lemma_described(name, description, argument);
    }
}

/// An answer is written with its version and its id, `null` where it has none, and with
/// its result or its error where it has one, and nothing else.
pub proof fn law_written_answer(r: ResponseView, k: Seq<char>)
    ensures
        ({
            let v = jsonrpc::response_json(r);
            &&& json::member(v, "jsonrpc"@) == Some(JsonView::Text(r.jsonrpc))
            &&& json::member(v, "id"@) == Some(
                match r.id {
                    Some(x) => x,
                    None => JsonView::Null,
                },
            )
            &&& json::member(v, "result"@) == r.result
            &&& match r.error {
                None => json::member(v, "error"@) is None,
                Some((code, message)) => json::member(v, "error"@) is Some && has_both(
                    json::member(v, "error"@)->0,
                    "code"@,
                    JsonView::Number(NumberView::Int(code)),
                    "message"@,
                    JsonView::Text(message),
                ),
            }
            &&& json::member(v, k) is Some ==> k == "jsonrpc"@ || k == "id"@ || k == "result"@ || k == "error"@
        }),
{
    reveal_strlit("jsonrpc");
    reveal_strlit("id");
    reveal_strlit("result");
    reveal_strlit("error");
    reveal_strlit("code");
    reveal_strlit("message");
    assert("jsonrpc"@.len() == 7 && "id"@.len() == 2 && "result"@.len() == 6 && "error"@.len() == 5);
    assert("code"@.len() == 4 && "message"@.len() == 7);
}

/// The answer to a recovery tells the outcome that it has come to, which can be read
/// again.
pub proof fn law_recovery_is_told(q: RequestView, o: OutcomeView)
    requires
        q.id is Some,
    ensures
        answers_with(jsonrpc::result_view(q.id, jsonrpc::content_json(o.json())), q, o.json()),
        wire_laws::is_outcome(o.json(), o),
{
    lemma_content(q.id, q, o.json());
    wire_laws::law_outcome_is_written(o);
}

} // verus!

//! JSON-RPC 2.0: requests, answers, and the tools that can be called.

use vstd::prelude::*;
use vstd::string::*;
use crate::clock::Instant;
use crate::dag;
use crate::decode;
use crate::engine::{EngineView, McpEngine};
use crate::error::{AetherError, Outcome};
use crate::execution_store;
use crate::execution_store::ExecutionView;
use crate::ids;
use crate::json;
use crate::json::{Json, JsonView, NumberView};
use crate::orchestrator;
use crate::supervisor;
use crate::text;
use crate::text_map::TextMap;

verus! {

/// A request, or a notification where it has no id.
#[derive(Debug, PartialEq)]
pub struct JsonRpcRequest {
    pub jsonrpc: String,
    pub id: Option<Json>,
    pub method: String,
    pub params: Json,
}

/// A `JsonRpcRequest` as a mathematical value.
pub struct RequestView {
    pub jsonrpc: Seq<char>,
    pub id: Option<JsonView>,
    pub method: Seq<char>,
    pub params: JsonView,
}

/// An optional JSON value as a mathematical value.
pub open spec fn opt_view(o: Option<Json>) -> Option<JsonView> {
    match o {
        Some(v) => Some(v@),
        None => None,
    }
}

impl View for JsonRpcRequest {
    type V = RequestView;

    open spec fn view(&self) -> RequestView {
        RequestView {
            jsonrpc: self.jsonrpc@,
            id: opt_view(self.id),
            method: self.method@,
            params: self.params@,
        }
    }
}

/// The id in a request; none where there is no such field or it is `null`.
pub open spec fn id_in(o: Option<JsonView>) -> Option<JsonView> {
    match o {
        None => None,
        Some(JsonView::Null) => None,
        Some(x) => Some(x),
    }
}

/// The parameters in a request; `null` where there is no such field.
pub open spec fn params_in(o: Option<JsonView>) -> JsonView {
    match o {
        Some(x) => x,
        None => JsonView::Null,
    }
}

/// The request that an object stands for, or the complaint about the object.
pub open spec fn request_by_name(v: JsonView) -> Result<RequestView, Seq<char>> {
    match (
        decode::text_in(json::member(v, "jsonrpc"@)),
        decode::text_in(json::member(v, "method"@)),
    ) {
        (Err(e), _) => Err(e),
        (_, Err(e)) => Err(e),
        (Ok(None), _) => Err(decode::missing("jsonrpc"@)),
        (_, Ok(None)) => Err(decode::missing("method"@)),
        (Ok(Some(jsonrpc)), Ok(Some(method))) => Ok(
            RequestView {
                jsonrpc,
                id: id_in(json::member(v, "id"@)),
                method,
                params: params_in(json::member(v, "params"@)),
            },
        ),
    }
}

/// The request whose fields a list gives in their order, or the complaint about the
/// list.
pub open spec fn request_in_order(s: Seq<JsonView>) -> Result<RequestView, Seq<char>> {
    match (decode::text_in(decode::item(s, 0)), decode::text_in(decode::item(s, 2))) {
        (Err(e), _) => Err(e),
        (Ok(None), _) => Err(decode::wrong_length(0, "struct JsonRpcRequest with 4 elements"@)),
        (_, Err(e)) => Err(e),
        (_, Ok(None)) => Err(decode::wrong_length(2, "struct JsonRpcRequest with 4 elements"@)),
        (Ok(Some(jsonrpc)), Ok(Some(method))) => if s.len() > 4 {
            Err(decode::too_long(s.len()))
        } else {
            Ok(
                RequestView {
                    jsonrpc,
                    id: id_in(decode::item(s, 1)),
                    method,
                    params: params_in(decode::item(s, 3)),
                },
            )
        },
    }
}

/// The request that a JSON value stands for, or the complaint about the value.
pub open spec fn request_of(v: JsonView) -> Result<RequestView, Seq<char>> {
    match v {
        JsonView::Object(_) => request_by_name(v),
        JsonView::List(s) => request_in_order(s),
        _ => Err(decode::wrong_kind(v, "struct JsonRpcRequest"@)),
    }
}

/// See `id_in`.
fn read_id(o: Option<&Json>) -> (r: Option<Json>)
    ensures
        opt_view(r) == id_in(decode::seen(o)),
{
    match o {
        None => None,
        Some(x) => match x {
            Json::Null => None,
            _ => Some(x.clone()),
        },
    }
}

/// See `params_in`.
fn read_params(o: Option<&Json>) -> (r: Json)
    ensures
        r@ == params_in(decode::seen(o)),
{
    match o {
        Some(x) => x.clone(),
        None => Json::Null,
    }
}

impl JsonRpcRequest {
    /// Read a request out of a JSON value.
    pub fn from_json(v: &Json) -> (r: Result<JsonRpcRequest, String>)
        ensures
            match r {
                Ok(q) => request_of(v@) == Ok::<RequestView, Seq<char>>(q@),
                Err(e) => request_of(v@) == Err::<RequestView, Seq<char>>(e@),
            },
    {
        match v {
            Json::Object(_) => {
                let id = read_id(v.get("id"));
                let jsonrpc = match decode::text_field(v.get("jsonrpc")) {
                    Err(e) => return Err(e),
                    Ok(s) => s,
                };
                let method = match decode::text_field(v.get("method")) {
                    Err(e) => return Err(e),
                    Ok(s) => s,
                };
                let params = read_params(v.get("params"));
                let jsonrpc = match jsonrpc {
                    Some(s) => s,
                    None => return Err(decode::complain_missing("jsonrpc")),
                };
                let method = match method {
                    Some(s) => s,
                    None => return Err(decode::complain_missing("method")),
                };
                Ok(JsonRpcRequest { jsonrpc, id, method, params })
            },
            Json::List(items) => {
                proof {
                    json::lemma_list_view(*items);
                }
                let jsonrpc = match decode::text_field(decode::at(items, 0)) {
                    Err(e) => return Err(e),
                    Ok(None) => {
                        return Err(decode::complain_length(0, "struct JsonRpcRequest with 4 elements"));
                    },
                    Ok(Some(s)) => s,
                };
                let id = read_id(decode::at(items, 1));
                let method = match decode::text_field(decode::at(items, 2)) {
                    Err(e) => return Err(e),
                    Ok(None) => {
                        return Err(decode::complain_length(2, "struct JsonRpcRequest with 4 elements"));
                    },
                    Ok(Some(s)) => s,
                };
                let params = read_params(decode::at(items, 3));
                if items.len() > 4 {
                    return Err(decode::complain_length(items.len(), "fewer elements in array"));
                }
                Ok(JsonRpcRequest { jsonrpc, id, method, params })
            },
            _ => Err(decode::complain(v, "struct JsonRpcRequest")),
        }
    }
}

/// An error that is answered.
#[derive(Debug, PartialEq, Eq)]
pub struct JsonRpcError {
    pub code: i64,
    pub message: String,
}

/// An answer.
#[derive(Debug, PartialEq)]
pub struct JsonRpcResponse {
    pub jsonrpc: &'static str,
    pub id: Option<Json>,
    pub result: Option<Json>,
    pub error: Option<JsonRpcError>,
}

/// A `JsonRpcResponse` as a mathematical value.
pub struct ResponseView {
    pub jsonrpc: Seq<char>,
    pub id: Option<JsonView>,
    pub result: Option<JsonView>,
    pub error: Option<(int, Seq<char>)>,
}

impl JsonRpcResponse {
    /// The answer as a mathematical value.
    pub open spec fn view(&self) -> ResponseView {
        ResponseView {
            jsonrpc: self.jsonrpc@,
            id: opt_view(self.id),
            result: opt_view(self.result),
            error: match self.error {
                Some(e) => Some((e.code as int, e.message@)),
                None => None,
            },
        }
    }

    /// An answer with a result.
    pub fn result(id: Option<Json>, result: Json) -> (r: JsonRpcResponse)
        ensures
            r@ == result_view(opt_view(id), result@),
    {
        JsonRpcResponse { jsonrpc: "2.0", id, result: Some(result), error: None }
    }

    /// An answer with an error.
    pub fn error(id: Option<Json>, code: i64, message: String) -> (r: JsonRpcResponse)
        ensures
            r@ == error_view(opt_view(id), code as int, message@),
    {
        JsonRpcResponse {
            jsonrpc: "2.0",
            id,
            result: None,
            error: Some(JsonRpcError { code, message }),
        }
    }

    /// The JSON form. A result or an error that is not there is left out.
    pub fn to_json(&self) -> (r: Json)
        ensures
            r@ == response_json(self@),
    {
        let id = match &self.id {
            Some(v) => v.clone(),
            None => Json::Null,
        };
        assert(id@ == (match self@.id {
            Some(x) => x,
            None => JsonView::Null,
        }));
        let mut m: TextMap<Json> = TextMap::new();
        m.insert("jsonrpc".to_string(), Json::text(self.jsonrpc));
        m.insert("id".to_string(), id);
        if let Some(v) = &self.result {
            m.insert("result".to_string(), v.clone());
        }
        if let Some(e) = &self.error {
            let mut n: TextMap<Json> = TextMap::new();
            n.insert("code".to_string(), Json::integer(e.code));
            n.insert("message".to_string(), Json::text(e.message.as_str()));
            let inner = Json::Object(n);
            assert(inner@->Object_0 =~= map![
                "code"@ => JsonView::Number(NumberView::Int(e.code as int)),
                "message"@ => JsonView::Text(e.message@),
            ]);
            m.insert("error".to_string(), inner);
        }
        let r = Json::Object(m);
        assert(r@->Object_0 =~= response_json(self@)->Object_0);
        r
    }
}

/// An answer with a result.
pub open spec fn result_view(id: Option<JsonView>, result: JsonView) -> ResponseView {
    ResponseView { jsonrpc: "2.0"@, id, result: Some(result), error: None }
}

/// An answer with an error.
pub open spec fn error_view(id: Option<JsonView>, code: int, message: Seq<char>) -> ResponseView {
    ResponseView { jsonrpc: "2.0"@, id, result: None, error: Some((code, message)) }
}

/// The JSON form of an answer.
pub open spec fn response_json(v: ResponseView) -> JsonView {
    let head = map![
        "jsonrpc"@ => JsonView::Text(v.jsonrpc),
        "id"@ => match v.id {
            Some(x) => x,
            None => JsonView::Null,
        },
    ];
    let with_result = match v.result {
        Some(x) => head.insert("result"@, x),
        None => head,
    };
    JsonView::Object(
        match v.error {
            Some((code, message)) => with_result.insert(
                "error"@,
                JsonView::Object(
                    map![
                        "code"@ => JsonView::Number(NumberView::Int(code)),
                        "message"@ => JsonView::Text(message),
                    ],
                ),
            ),
            None => with_result,
        },
    )
}

/// An object of one member.
pub open spec fn single(name: Seq<char>, v: JsonView) -> JsonView {
    JsonView::Object(map![name => v])
}

fn object_of(name: &str, v: Json) -> (r: Json)
    ensures
        r@ == single(name@, v@),
{
    let ghost x = v@;
    let mut m: TextMap<Json> = TextMap::new();
    m.insert(name.to_string(), v);
    let r = Json::Object(m);
    assert(r@->Object_0 =~= single(name@, x)->Object_0);
    r
}

/// The description of a tool that takes one string argument, or none.
pub open spec fn tool_json(name: Seq<char>, description: Seq<char>, argument: Option<Seq<char>>) -> JsonView {
    let open = map![
        "type"@ => JsonView::Text("object"@),
        "properties"@ => match argument {
            Some(a) => single(a, single("type"@, JsonView::Text("string"@))),
            None => JsonView::Object(Map::empty()),
        },
    ];
    JsonView::Object(
        map![
            "name"@ => JsonView::Text(name),
            "description"@ => JsonView::Text(description),
            "inputSchema"@ => JsonView::Object(
                match argument {
                    Some(a) => open.insert("required"@, JsonView::List(seq![JsonView::Text(a)])),
                    None => open,
                },
            ),
        ],
    )
}

fn describe(name: &str, description: &str, argument: Option<&str>) -> (r: Json)
    ensures
        r@ == tool_json(
            name@,
            description@,
            match argument {
                Some(a) => Some(a@),
                None => None,
            },
        ),
{
    let ghost arg = match argument {
        Some(a) => Some(a@),
        None => None,
    };
    let properties = match argument {
        Some(a) => object_of(a, object_of("type", Json::text("string"))),
        None => {
            let none = Json::Object(TextMap::new());
            assert(none@->Object_0 =~= Map::empty());
            none
        },
    };
    let mut schema: TextMap<Json> = TextMap::new();
    schema.insert("type".to_string(), Json::text("object"));
    schema.insert("properties".to_string(), properties);
    if let Some(a) = argument {
        let mut one: Vec<Json> = Vec::new();
        one.push(Json::text(a));
        let list = Json::List(one);
        assert(list@->List_0 =~= seq![JsonView::Text(a@)]);
        schema.insert("required".to_string(), list);
    }
    let input = Json::Object(schema);
    assert(input@->Object_0 =~= (tool_json(name@, description@, arg)->Object_0)["inputSchema"@]->Object_0);
    let mut m: TextMap<Json> = TextMap::new();
    m.insert("name".to_string(), Json::text(name));
    m.insert("description".to_string(), Json::text(description));
    m.insert("inputSchema".to_string(), input);
    let r = Json::Object(m);
    assert(r@->Object_0 =~= tool_json(name@, description@, arg)->Object_0);
    r
}

/// The tools that can be called.
pub open spec fn tools_json() -> JsonView {
    JsonView::List(
        seq![
            tool_json(
                "submit_goal"@,
                "Submit a goal for aether to plan and execute. Returns a workflow_id to poll."@,
                Some("goal"@),
            ),
            tool_json(
                "get_result"@,
                "Get the status/result of a previously submitted goal."@,
                Some("workflow_id"@),
            ),
            tool_json(
                "list_capabilities"@,
                "List capabilities aether can currently fulfill (healthy agents)."@,
                None,
            ),
            tool_json(
                "expire_gates"@,
                "Operator sweep: fail any parked node whose gate deadline has passed. Returns the expired (workflow_id, node_id) pairs."@,
                None,
            ),
            tool_json(
                "list_recoverable"@,
                "List executions (running/suspended) an operator may recover after a restart."@,
                None,
            ),
            tool_json(
                "recover_workflow"@,
                "Recover one execution by workflow_id (re-drives a crash/restart orphan). Refused if a live driver holds it."@,
                Some("workflow_id"@),
            ),
        ],
    )
}

/// The tools that can be called.
pub fn tool_descriptors() -> (r: Json)
    ensures
        r@ == tools_json(),
{
    let mut v: Vec<Json> = Vec::new();
    v.push(
        describe(
            "submit_goal",
            "Submit a goal for aether to plan and execute. Returns a workflow_id to poll.",
            Some("goal"),
        ),
    );
    v.push(
        describe(
            "get_result",
            "Get the status/result of a previously submitted goal.",
            Some("workflow_id"),
        ),
    );
    v.push(
        describe(
            "list_capabilities",
            "List capabilities aether can currently fulfill (healthy agents).",
            None,
        ),
    );
    v.push(
        describe(
            "expire_gates",
            "Operator sweep: fail any parked node whose gate deadline has passed. Returns the expired (workflow_id, node_id) pairs.",
            None,
        ),
    );
    v.push(
        describe(
            "list_recoverable",
            "List executions (running/suspended) an operator may recover after a restart.",
            None,
        ),
    );
    v.push(
        describe(
            "recover_workflow",
            "Recover one execution by workflow_id (re-drives a crash/restart orphan). Refused if a live driver holds it.",
            Some("workflow_id"),
        ),
    );
    let r = Json::List(v);
    assert(r@->List_0 =~= tools_json()->List_0);
    r
}

/// The output of a tool: one block of text that holds JSON.
pub open spec fn content_json(v: JsonView) -> JsonView {
    single(
        "content"@,
        JsonView::List(
            seq![
                JsonView::Object(
                    map![
                        "type"@ => JsonView::Text("text"@),
                        "text"@ => JsonView::Text(json::json_text(v)),
                    ],
                ),
            ],
        ),
    )
}

/// See `content_json`.
pub fn tool_content(value: &Json) -> (r: Json)
    ensures
        r@ == content_json(value@),
{
    let mut m: TextMap<Json> = TextMap::new();
    m.insert("type".to_string(), Json::text("text"));
    m.insert("text".to_string(), Json::string(value.to_text()));
    let block = Json::Object(m);
    assert(block@->Object_0 =~= map![
        "type"@ => JsonView::Text("text"@),
        "text"@ => JsonView::Text(json::json_text(value@)),
    ]);
    let ghost b = block@;
    let mut one: Vec<Json> = Vec::new();
    one.push(block);
    let list = Json::List(one);
    assert(list@->List_0 =~= seq![b]);
    object_of("content", list)
}

/// What an `initialize` request is answered.
pub open spec fn server_json() -> JsonView {
    JsonView::Object(
        map![
            "protocolVersion"@ => JsonView::Text("2024-11-05"@),
            "capabilities"@ => single("tools"@, JsonView::Object(Map::empty())),
            "serverInfo"@ => JsonView::Object(
                map![
                    "name"@ => JsonView::Text("aether-mcp"@),
                    "version"@ => JsonView::Text("0.1.0"@),
                ],
            ),
        ],
    )
}

fn server_info() -> (r: Json)
    ensures
        r@ == server_json(),
{
    let none = Json::Object(TextMap::new());
    assert(none@->Object_0 =~= Map::empty());
    let mut info: TextMap<Json> = TextMap::new();
    info.insert("name".to_string(), Json::text("aether-mcp"));
    info.insert("version".to_string(), Json::text("0.1.0"));
    let server = Json::Object(info);
    assert(server@->Object_0 =~= map![
        "name"@ => JsonView::Text("aether-mcp"@),
        "version"@ => JsonView::Text("0.1.0"@),
    ]);
    let mut m: TextMap<Json> = TextMap::new();
    m.insert("protocolVersion".to_string(), Json::text("2024-11-05"));
    m.insert("capabilities".to_string(), object_of("tools", none));
    m.insert("serverInfo".to_string(), server);
    let r = Json::Object(m);
    assert(r@->Object_0 =~= server_json()->Object_0);
    r
}

/// What a request leads to.
#[derive(Debug, PartialEq)]
pub enum Handled {
    /// A notification, which is not answered.
    Silent,
    Reply(JsonRpcResponse),
    /// A goal was taken; its run is to be started.
    Submitted { reply: JsonRpcResponse, workflow_id: u128, goal: Json },
    /// An execution is to be recovered, and the outcome answered.
    Recover { id: Json, workflow_id: u128 },
}

/// A `Handled` as a mathematical value.
pub enum HandledView {
    Silent,
    Reply(ResponseView),
    Submitted { reply: ResponseView, workflow_id: u128, goal: JsonView },
    Recover { id: JsonView, workflow_id: u128 },
}

impl View for Handled {
    type V = HandledView;

    open spec fn view(&self) -> HandledView {
        match *self {
            Handled::Silent => HandledView::Silent,
            Handled::Reply(r) => HandledView::Reply(r@),
            Handled::Submitted { reply, workflow_id, goal } => HandledView::Submitted {
                reply: reply@,
                workflow_id,
                goal: goal@,
            },
            Handled::Recover { id, workflow_id } => HandledView::Recover { id: id@, workflow_id },
        }
    }
}

/// The argument `key` of a tool call.
pub open spec fn argument(params: JsonView, key: Seq<char>) -> Option<JsonView> {
    match json::member(params, "arguments"@) {
        Some(args) => json::member(args, key),
        None => None,
    }
}

/// A value as text; empty where it is no string or not there.
pub open spec fn as_text(v: Option<JsonView>) -> Seq<char> {
    match v {
        Some(JsonView::Text(s)) => s,
        _ => Seq::empty(),
    }
}

/// Pairs of execution and node as a JSON value.
pub open spec fn pairs_json(s: Seq<(Seq<char>, Seq<char>)>) -> JsonView {
    JsonView::List(
        Seq::new(
            s.len(),
            |i: int|
                JsonView::Object(
                    map![
                        "workflow_id"@ => JsonView::Text(s[i].0),
                        "node_id"@ => JsonView::Text(s[i].1),
                    ],
                ),
        ),
    )
}

/// Executions and their status as a JSON value.
pub open spec fn executions_json(s: Seq<ExecutionView>) -> JsonView {
    JsonView::List(
        Seq::new(
            s.len(),
            |i: int|
                JsonView::Object(
                    map![
                        "workflow_id"@ => JsonView::Text(s[i].workflow_id),
                        "status"@ => JsonView::Text(s[i].status.label()),
                    ],
                ),
        ),
    )
}

/// What a tool call leads to.
pub open spec fn call_handled(
    v: EngineView,
    id: JsonView,
    params: JsonView,
    fresh: u128,
    t: Seq<char>,
) -> HandledView {
    let name = as_text(json::member(params, "name"@));
    let raw = as_text(argument(params, "workflow_id"@));
    let reply = |value: JsonView| HandledView::Reply(result_view(Some(id), content_json(value)));
    let refuse = |code: int, message: Seq<char>| HandledView::Reply(error_view(Some(id), code, message));
    if name == "submit_goal"@ {
        match argument(params, "goal"@) {
            None => refuse(-32602, "missing 'goal' argument"@),
            Some(goal) => HandledView::Submitted {
                reply: result_view(
                    Some(id),
                    content_json(single("workflow_id"@, JsonView::Text(ids::id_text(fresh)))),
                ),
                workflow_id: fresh,
                goal,
            },
        }
    } else if name == "get_result"@ {
        match ids::id_parse(raw) {
            Err(_) => refuse(-32602, "invalid 'workflow_id'"@),
            Ok(w) => if v.jobs.jobs.dom().contains(w) {
                reply(v.jobs.jobs[w].json())
            } else {
                refuse(-32001, "unknown workflow_id: "@ + raw)
            },
        }
    } else if name == "list_capabilities"@ {
        reply(single("capabilities"@, dag::texts_json(orchestrator::offered(v.registry.entries))))
    } else if name == "expire_gates"@ {
        reply(single("expired"@, pairs_json(v.executions.overdue_pairs(t))))
    } else if name == "list_recoverable"@ {
        reply(single("recoverable"@, executions_json(v.executions.active())))
    } else if name == "recover_workflow"@ {
        match ids::id_parse(raw) {
            Err(_) => refuse(-32602, "invalid 'workflow_id'"@),
            Ok(w) => HandledView::Recover { id, workflow_id: w },
        }
    } else {
        refuse(-32602, "unknown tool: "@ + name)
    }
}

/// The engine after a tool call.
pub open spec fn call_engine(v: EngineView, params: JsonView, fresh: u128, t: Seq<char>) -> EngineView {
    let name = as_text(json::member(params, "name"@));
    if name == "submit_goal"@ {
        if argument(params, "goal"@) is Some {
            EngineView { jobs: v.jobs.created(fresh), ..v }
        } else {
            v
        }
    } else if name == "expire_gates"@ {
        EngineView { executions: v.executions.expired(t), ..v }
    } else {
        v
    }
}

/// What a request leads to.
pub open spec fn request_handled(v: EngineView, q: RequestView, fresh: u128, t: Seq<char>) -> HandledView {
    match q.id {
        None => HandledView::Silent,
        Some(id) => if q.method == "initialize"@ {
            HandledView::Reply(result_view(Some(id), server_json()))
        } else if q.method == "tools/list"@ {
            HandledView::Reply(result_view(Some(id), single("tools"@, tools_json())))
        } else if q.method == "tools/call"@ {
            call_handled(v, id, q.params, fresh, t)
        } else {
            HandledView::Reply(
                error_view(Some(id), -32601, "method not found: "@ + q.method),
            )
        },
    }
}

/// The engine after a request.
pub open spec fn request_engine(v: EngineView, q: RequestView, fresh: u128, t: Seq<char>) -> EngineView {
    if q.id is Some && q.method == "tools/call"@ {
        call_engine(v, q.params, fresh, t)
    } else {
        v
    }
}

/// The request in a raw message, or the complaint about the message.
pub open spec fn message_request(raw: Seq<char>) -> Result<RequestView, Seq<char>> {
    match json::json_parse(raw) {
        Err(e) => Err(e),
        Ok(v) => request_of(v),
    }
}

fn text_argument<'a>(v: Option<&'a Json>) -> (r: &'a str)
    ensures
        r@ == as_text(
            match v {
                Some(x) => Some(x@),
                None => None,
            },
        ),
{
    match v {
        Some(Json::Text(s)) => s.as_str(),
        _ => {
            proof {
                reveal_strlit("");
                assert(""@ =~= Seq::empty());
            }
            ""
        },
    }
}

fn get_argument<'a>(params: &'a Json, key: &str) -> (r: Option<&'a Json>)
    ensures
        match r {
            Some(x) => argument(params@, key@) == Some(x@),
            None => argument(params@, key@) is None,
        },
{
    match params.get("arguments") {
        Some(args) => args.get(key),
        None => None,
    }
}

fn pairs_to_json(pairs: &Vec<(String, String)>) -> (r: Json)
    ensures
        r@ == pairs_json(execution_store::pair_views(pairs@)),
{
    let ghost s = execution_store::pair_views(pairs@);
    let mut out: Vec<Json> = Vec::new();
    let mut i: usize = 0;
    while i < pairs.len()
        invariant
            i <= pairs@.len(),
            s == execution_store::pair_views(pairs@),
            out@.len() == i,
            forall|j: int| 0 <= j < i ==> (#[trigger] out@[j])@ == (pairs_json(s)->List_0)[j],
        decreases pairs@.len() - i,
    {
        let mut m: TextMap<Json> = TextMap::new();
        m.insert("workflow_id".to_string(), Json::text(pairs[i].0.as_str()));
        m.insert("node_id".to_string(), Json::text(pairs[i].1.as_str()));
        let row = Json::Object(m);
        assert(row@->Object_0 =~= (pairs_json(s)->List_0)[i as int]->Object_0);
        out.push(row);
        i += 1;
    }
    let r = Json::List(out);
    assert(r@->List_0 =~= pairs_json(s)->List_0);
    r
}

fn executions_to_json(records: &Vec<execution_store::ExecutionRecord>) -> (r: Json)
    ensures
        r@ == executions_json(execution_store::record_views(records@)),
{
    let ghost s = execution_store::record_views(records@);
    let mut out: Vec<Json> = Vec::new();
    let mut i: usize = 0;
    while i < records.len()
        invariant
            i <= records@.len(),
            s == execution_store::record_views(records@),
            out@.len() == i,
            forall|j: int| 0 <= j < i ==> (#[trigger] out@[j])@ == (executions_json(s)->List_0)[j],
        decreases records@.len() - i,
    {
        let mut m: TextMap<Json> = TextMap::new();
        m.insert("workflow_id".to_string(), Json::text(records[i].workflow_id.as_str()));
        m.insert("status".to_string(), Json::text(records[i].status.as_str()));
        let row = Json::Object(m);
        assert(row@->Object_0 =~= (executions_json(s)->List_0)[i as int]->Object_0);
        out.push(row);
        i += 1;
    }
    let r = Json::List(out);
    assert(r@->List_0 =~= executions_json(s)->List_0);
    r
}

/// The names of tools and methods are different texts.
proof fn lemma_names()
    ensures
        "submit_goal"@.len() == 11,
        "get_result"@.len() == 10,
        "list_capabilities"@.len() == 17,
        "expire_gates"@.len() == 12,
        "list_recoverable"@.len() == 16,
        "recover_workflow"@.len() == 16,
        "initialize"@ != "tools/call"@,
        "tools/list"@ != "tools/call"@,
{
    reveal_strlit("submit_goal");
    reveal_strlit("get_result");
    reveal_strlit("list_capabilities");
    reveal_strlit("expire_gates");
    reveal_strlit("list_recoverable");
    reveal_strlit("recover_workflow");
    reveal_strlit("initialize");
    reveal_strlit("tools/list");
    reveal_strlit("tools/call");
    assert("initialize"@[0] == 'i' && "tools/call"@[0] == 't');
    assert("tools/list"@[6] == 'l' && "tools/call"@[6] == 'c');
}

/// Carry out a tool call.
fn handle_tool_call(engine: &mut McpEngine, id: Json, params: &Json, fresh: u128, now: Instant) -> (r: Handled)
    requires
        now.usable(),
    ensures
        r@ == call_handled(old(engine)@, id@, params@, fresh, now.words()),
        final(engine)@ == call_engine(old(engine)@, params@, fresh, now.words()),
{
    proof {
        lemma_names();
    }
    let name = text_argument(params.get("name"));
    if text::same(name, "submit_goal") {
        let goal = match get_argument(params, "goal") {
            Some(g) => g.clone(),
            None => {
                return Handled::Reply(
                    JsonRpcResponse::error(Some(id), -32602, "missing 'goal' argument".to_string()),
                );
            },
        };
        engine.submit_goal(fresh);
        let value = object_of("workflow_id", Json::string(ids::text_of_id(fresh)));
        let reply = JsonRpcResponse::result(Some(id), tool_content(&value));
        return Handled::Submitted { reply, workflow_id: fresh, goal };
    }
    if text::same(name, "get_result") {
        let raw = text_argument(get_argument(params, "workflow_id"));
        let parsed = match ids::parse_id(raw) {
            Ok(w) => w,
            Err(_) => {
                return Handled::Reply(
                    JsonRpcResponse::error(Some(id), -32602, "invalid 'workflow_id'".to_string()),
                );
            },
        };
        return match engine.get_result(parsed) {
            Some(state) => Handled::Reply(
                JsonRpcResponse::result(Some(id), tool_content(&state.to_json())),
            ),
            None => Handled::Reply(
                JsonRpcResponse::error(Some(id), -32001, text::cat("unknown workflow_id: ", raw)),
            ),
        };
    }
    if text::same(name, "list_capabilities") {
        let caps = engine.list_capabilities();
        let list = supervisor::text_list(&caps);
        assert(list@->List_0 =~= dag::texts_json(orchestrator::offered(old(engine)@.registry.entries))->List_0);
        return Handled::Reply(
            JsonRpcResponse::result(Some(id), tool_content(&object_of("capabilities", list))),
        );
    }
    if text::same(name, "expire_gates") {
        let pairs = engine.expire_gates(now);
        return Handled::Reply(
            JsonRpcResponse::result(
                Some(id),
                tool_content(&object_of("expired", pairs_to_json(&pairs))),
            ),
        );
    }
    if text::same(name, "list_recoverable") {
        let records = engine.recoverable();
        return Handled::Reply(
            JsonRpcResponse::result(
                Some(id),
                tool_content(&object_of("recoverable", executions_to_json(&records))),
            ),
        );
    }
    if text::same(name, "recover_workflow") {
        let raw = text_argument(get_argument(params, "workflow_id"));
        return match ids::parse_id(raw) {
            Ok(workflow_id) => Handled::Recover { id, workflow_id },
            Err(_) => Handled::Reply(
                JsonRpcResponse::error(Some(id), -32602, "invalid 'workflow_id'".to_string()),
            ),
        };
    }
    Handled::Reply(JsonRpcResponse::error(Some(id), -32602, text::cat("unknown tool: ", name)))
}

/// Carry out a request. One without an id is a notification and is not answered.
/// `fresh` is the id that a goal gets.
pub fn handle_request(engine: &mut McpEngine, req: JsonRpcRequest, fresh: u128, now: Instant) -> (r: Handled)
    requires
        now.usable(),
    ensures
        r@ == request_handled(old(engine)@, req@, fresh, now.words()),
        final(engine)@ == request_engine(old(engine)@, req@, fresh, now.words()),
{
    proof {
        lemma_names();
    }
    let id = match req.id {
        None => return Handled::Silent,
        Some(id) => id,
    };
    let method = req.method.as_str();
    if text::same(method, "initialize") {
        Handled::Reply(JsonRpcResponse::result(Some(id), server_info()))
    } else if text::same(method, "tools/list") {
        Handled::Reply(JsonRpcResponse::result(Some(id), object_of("tools", tool_descriptors())))
    } else if text::same(method, "tools/call") {
        handle_tool_call(engine, id, &req.params, fresh, now)
    } else {
        Handled::Reply(
            JsonRpcResponse::error(Some(id), -32601, text::cat("method not found: ", method)),
        )
    }
}

/// The rows that the answer to a request rests on, besides the jobs.
#[derive(Clone, Copy, Debug, PartialEq, Eq, Structural)]
pub enum Rows {
    Nothing,
    Agents,
    Executions,
}

/// See `rows_needed`.
pub open spec fn rows_for(q: RequestView) -> Rows {
    let name = as_text(json::member(q.params, "name"@));
    if q.id is None || q.method != "tools/call"@ {
        Rows::Nothing
    } else if name == "list_capabilities"@ {
        Rows::Agents
    } else if name == "expire_gates"@ || name == "list_recoverable"@ {
        Rows::Executions
    } else {
        Rows::Nothing
    }
}

/// The rows that must be at hand before a request is carried out.
pub fn rows_needed(req: &JsonRpcRequest) -> (r: Rows)
    ensures
        r == rows_for(req@),
{
    if req.id.is_none() || !text::same(req.method.as_str(), "tools/call") {
        return Rows::Nothing;
    }
    let name = text_argument(req.params.get("name"));
    if text::same(name, "list_capabilities") {
        Rows::Agents
    } else if text::same(name, "expire_gates") || text::same(name, "list_recoverable") {
        Rows::Executions
    } else {
        Rows::Nothing
    }
}

/// A request is carried out the same way whatever rows there are, but for those that
/// it needs, and changes no others.
pub proof fn law_other_rows_do_not_matter(v: EngineView, u: EngineView, q: RequestView, fresh: u128, t: Seq<char>)
    requires
        v.jobs == u.jobs,
        rows_for(q) is Agents ==> v.registry == u.registry,
        rows_for(q) is Executions ==> v.executions == u.executions,
    ensures
        request_handled(v, q, fresh, t) == request_handled(u, q, fresh, t),
        request_engine(v, q, fresh, t).jobs == request_engine(u, q, fresh, t).jobs,
        request_engine(v, q, fresh, t).registry == v.registry,
        !(rows_for(q) is Executions) ==> request_engine(v, q, fresh, t).executions == v.executions,
{
    lemma_names();
}

/// The answer to a request whose rows cannot be read.
pub fn failed_reply(id: Option<Json>, e: &AetherError) -> (r: JsonRpcResponse)
    ensures
        r@ == error_view(opt_view(id), -32000, e@.words()),
{
    JsonRpcResponse::error(id, -32000, e.to_string())
}

/// A request that was read, or the complaint of its reader, as a mathematical value.
pub open spec fn parsed_view(parsed: Result<JsonRpcRequest, String>) -> Result<RequestView, Seq<char>> {
    match parsed {
        Ok(q) => Ok(q@),
        Err(e) => Err(e@),
    }
}

/// What a message leads to: a request is carried out, and a message that is none is
/// answered with the complaint of its reader.
pub open spec fn message_handled(
    v: EngineView,
    parsed: Result<RequestView, Seq<char>>,
    fresh: u128,
    t: Seq<char>,
) -> HandledView {
    match parsed {
        Ok(q) => request_handled(v, q, fresh, t),
        Err(e) => HandledView::Reply(error_view(None, -32700, "parse error: "@ + e)),
    }
}

/// The engine after a message.
pub open spec fn message_engine(
    v: EngineView,
    parsed: Result<RequestView, Seq<char>>,
    fresh: u128,
    t: Seq<char>,
) -> EngineView {
    match parsed {
        Ok(q) => request_engine(v, q, fresh, t),
        Err(_) => v,
    }
}

/// Carry out a message that was read, or answer that it could not be.
pub fn handle_parsed(
    engine: &mut McpEngine,
    parsed: Result<JsonRpcRequest, String>,
    fresh: u128,
    now: Instant,
) -> (r: Handled)
    requires
        now.usable(),
    ensures
        r@ == message_handled(old(engine)@, parsed_view(parsed), fresh, now.words()),
        final(engine)@ == message_engine(old(engine)@, parsed_view(parsed), fresh, now.words()),
{
    match parsed {
        Ok(req) => handle_request(engine, req, fresh, now),
        Err(e) => Handled::Reply(
            JsonRpcResponse::error(None, -32700, text::cat("parse error: ", e.as_str())),
        ),
    }
}

/// Read a raw message by way of a JSON value, and carry it out. Of a member that is
/// repeated the last counts.
pub fn handle_message(engine: &mut McpEngine, raw: &str, fresh: u128, now: Instant) -> (r: Handled)
    requires
        now.usable(),
    ensures
        r@ == message_handled(old(engine)@, message_request(raw@), fresh, now.words()),
        final(engine)@ == message_engine(old(engine)@, message_request(raw@), fresh, now.words()),
{
    let parsed = match Json::parse(raw) {
        Err(e) => Err(e),
        Ok(v) => JsonRpcRequest::from_json(&v),
    };
    handle_parsed(engine, parsed, fresh, now)
}

/// The answer to a request for a recovery, once the outcome is known.
pub fn recovered_reply(id: Json, outcome: &Outcome) -> (r: JsonRpcResponse)
    ensures
        r@ == result_view(Some(id@), content_json(outcome@.json())),
{
    JsonRpcResponse::result(Some(id), tool_content(&outcome.to_json()))
}

/// A notification changes nothing and is not answered.
pub proof fn law_notifications_are_silent(v: EngineView, q: RequestView, fresh: u128, t: Seq<char>)
    requires
        q.id is None,
    ensures
        request_handled(v, q, fresh, t) is Silent,
        request_engine(v, q, fresh, t) == v,
{
}

/// Every answer names its protocol and carries the id of its request, and either a
/// result or an error.
pub proof fn law_answers_carry_the_id(v: EngineView, q: RequestView, fresh: u128, t: Seq<char>)
    requires
        q.id is Some,
    ensures
        match request_handled(v, q, fresh, t) {
            HandledView::Silent => false,
            HandledView::Reply(r) => r.jsonrpc == "2.0"@ && r.id == q.id && (r.result is Some
                <==> r.error is None),
            HandledView::Submitted { reply, workflow_id, .. } => reply.jsonrpc == "2.0"@ && reply.id
                == q.id && reply.result is Some && reply.error is None && workflow_id == fresh,
            HandledView::Recover { id, .. } => Some(id) == q.id,
        },
{
}

/// A goal that was taken can be asked for at once, and runs.
pub proof fn law_submitted_goal_runs(v: EngineView, q: RequestView, fresh: u128, t: Seq<char>)
    requires
        request_handled(v, q, fresh, t) is Submitted,
    ensures
        request_engine(v, q, fresh, t).jobs.jobs.dom().contains(fresh),
        request_engine(v, q, fresh, t).jobs.jobs[fresh] is Running,
{
}

} // verus!

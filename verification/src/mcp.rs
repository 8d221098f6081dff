//! The Model Context Protocol: JSON-RPC requests and what they are answered.

use crate::calls::{call_of, learnings_of, read_call, CallView, ToolCall};
use crate::json::{
    empty_array, empty_object, item_rows, lemma_array_view, number_rows, opt_json, Json, JsonView,
    Number, NumberView,
};
use crate::schema::{get_tool_definitions, lemma_tool_named, tool_definitions, tool_names};
use crate::search::{clamp_limit, clamped, index_query, sanitized, terms, Hit, HitView};
use crate::store::{committed, draw_short_texts, lemma_refused_committed, short_texts, MemoryStore};
use crate::tables::{ChangeView, Tables};
use crate::text::{same_text, texts, trim, trimmed};
use crate::tools::{
    answer, answer_of, answer_value, changes_of, count_ids, hits_value, ids_needed, may_change,
};
use vstd::prelude::*;
use vstd::string::*;

verus! {

/// The version of the program.
pub const VERSION: &'static str = "0.1.0";

/// What an assistant is told about the use of the tools.
pub const INSTRUCTIONS: &'static str = "memdag is this project's durable memory and task tracker. Call search_memory before starting a task to recall past decisions, invariants and blockers. Call record_memory and link_entities at decision points: kind 'task' for work items, kind 'blocker' for what stands in their way, and a 'blocks' edge from the blocker to the task. Call list_ready before claiming task or blocker work, and resolve_memory when it is done. Call consolidate_session before ending a session to keep what was learned and clear scratch notes.";

/// A request.
#[derive(Debug)]
pub struct JsonRpcRequest {
    pub jsonrpc: String,
    pub id: Option<Json>,
    pub method: String,
    pub params: Option<Json>,
}

/// A reply.
#[derive(Debug)]
pub struct JsonRpcResponse {
    pub jsonrpc: &'static str,
    pub id: Option<Json>,
    pub result: Option<Json>,
    pub error: Option<JsonRpcError>,
}

/// Why a request failed.
#[derive(Debug)]
pub struct JsonRpcError {
    pub code: i64,
    pub message: String,
    pub data: Option<Json>,
}

/// The value of a [`JsonRpcRequest`].
#[verifier::ext_equal]
pub ghost struct RequestView {
    pub jsonrpc: Seq<char>,
    pub id: Option<JsonView>,
    pub method: Seq<char>,
    pub params: Option<JsonView>,
}

/// The value of a [`JsonRpcError`].
#[verifier::ext_equal]
pub ghost struct RpcErrorView {
    pub code: int,
    pub message: Seq<char>,
    pub data: Option<JsonView>,
}

/// The value of a [`JsonRpcResponse`].
#[verifier::ext_equal]
pub ghost struct ResponseView {
    pub jsonrpc: Seq<char>,
    pub id: Option<JsonView>,
    pub result: Option<JsonView>,
    pub error: Option<RpcErrorView>,
}

impl View for JsonRpcRequest {
    type V = RequestView;

    open spec fn view(&self) -> RequestView {
        RequestView {
            jsonrpc: self.jsonrpc@,
            id: opt_json(self.id),
            method: self.method@,
            params: opt_json(self.params),
        }
    }
}

impl View for JsonRpcError {
    type V = RpcErrorView;

    open spec fn view(&self) -> RpcErrorView {
        RpcErrorView { code: self.code as int, message: self.message@, data: opt_json(self.data) }
    }
}

impl View for JsonRpcResponse {
    type V = ResponseView;

    open spec fn view(&self) -> ResponseView {
        ResponseView {
            jsonrpc: self.jsonrpc@,
            id: opt_json(self.id),
            result: opt_json(self.result),
            error: match self.error {
                Some(e) => Some(e@),
                None => None,
            },
        }
    }
}

/// A reply with a result.
pub open spec fn success(id: Option<JsonView>, result: JsonView) -> ResponseView {
    ResponseView { jsonrpc: "2.0"@, id: id, result: Some(result), error: None }
}

/// A reply with an error.
pub open spec fn failure(id: Option<JsonView>, code: int, message: Seq<char>) -> ResponseView {
    ResponseView {
        jsonrpc: "2.0"@,
        id: id,
        result: None,
        error: Some(RpcErrorView { code: code, message: message, data: None }),
    }
}

/// A request that no reply may be sent to.
pub open spec fn is_notification(req: RequestView) -> bool {
    req.id is None || req.id == Some(JsonView::Null)
}

/// What the server tells of itself.
pub open spec fn initialize_result() -> JsonView {
    empty_object().with("protocolVersion"@, JsonView::Text("2024-11-05"@)).with(
        "capabilities"@,
        empty_object().with("tools"@, empty_object().with("listChanged"@, JsonView::Bool(false))),
    ).with(
        "serverInfo"@,
        empty_object().with("name"@, JsonView::Text("memdag"@)).with(
            "version"@,
            JsonView::Text(VERSION@),
        ),
    ).with("instructions"@, JsonView::Text(INSTRUCTIONS@))
}

/// What a tool answered, for a client.
pub open spec fn tool_result(text: Seq<char>, is_error: bool) -> JsonView {
    empty_object().with(
        "content"@,
        empty_array().item(
            empty_object().with("type"@, JsonView::Text("text"@)).with(
                "text"@,
                JsonView::Text(text),
            ),
        ),
    ).with("isError"@, JsonView::Bool(is_error))
}

/// What a tool's refusal is told as.
pub open spec fn tool_error_text(name: Seq<char>, message: Seq<char>) -> Seq<char> {
    "Error executing tool '"@ + name + "': "@ + message
}

/// What the outcome of a tool is told as.
pub open spec fn tool_reply(name: Seq<char>, outcome: Result<Seq<char>, Seq<char>>) -> JsonView {
    match outcome {
        Ok(text) => tool_result(text, false),
        Err(message) => tool_result(tool_error_text(name, message), true),
    }
}

/// The parameters of a request.
pub open spec fn params_of(req: RequestView) -> JsonView {
    match req.params {
        Some(params) => params,
        None => empty_object(),
    }
}

/// The tool that a request names.
pub open spec fn tool_name(req: RequestView) -> Seq<char> {
    match params_of(req).text_at("name"@) {
        Some(name) => name,
        None => Seq::empty(),
    }
}

/// The arguments that a request has for its tool.
pub open spec fn tool_arguments(req: RequestView) -> JsonView {
    match params_of(req).get("arguments"@) {
        Some(arguments) => arguments,
        None => empty_object(),
    }
}

/// The call that a request makes, where it makes one.
pub open spec fn requested_call(req: RequestView) -> Option<CallView> {
    if req.method == "tools/call"@ {
        match call_of(tool_name(req), tool_arguments(req)) {
            Ok(call) => Some(call),
            Err(_) => None,
        }
    } else {
        None
    }
}

/// How many new identifiers the tool `name` needs for its arguments.
pub open spec fn tool_ids(name: Seq<char>, args: JsonView) -> nat {
    match call_of(name, args) {
        Ok(call) => ids_needed(call),
        Err(_) => 0,
    }
}

/// What the tool `name` changes in the graph.
pub open spec fn tool_changes(
    t: Tables,
    name: Seq<char>,
    args: JsonView,
    shorts: Seq<Seq<char>>,
    now: Seq<char>,
) -> Seq<ChangeView> {
    match call_of(name, args) {
        Ok(call) => changes_of(t, call, shorts, now),
        Err(_) => Seq::empty(),
    }
}

/// What the tool `name` answers, or why it is refused.
pub open spec fn tool_answer(
    t: Tables,
    name: Seq<char>,
    args: JsonView,
    hits: Result<Seq<HitView>, Seq<char>>,
    shorts: Seq<Seq<char>>,
    now: Seq<char>,
) -> Result<Seq<char>, Seq<char>> {
    match call_of(name, args) {
        Ok(call) => answer_of(t, call, hits, shorts, now),
        Err(message) => Err(message),
    }
}

/// How many new identifiers a request needs.
pub open spec fn request_ids(req: RequestView) -> nat {
    match requested_call(req) {
        Some(call) => ids_needed(call),
        None => 0,
    }
}

/// What a request changes in the graph.
pub open spec fn request_changes(
    t: Tables,
    req: RequestView,
    shorts: Seq<Seq<char>>,
    now: Seq<char>,
) -> Seq<ChangeView> {
    match requested_call(req) {
        Some(call) => changes_of(t, call, shorts, now),
        None => Seq::empty(),
    }
}

/// The outcome of the tool that a request names.
pub open spec fn tool_outcome(
    t: Tables,
    req: RequestView,
    hits: Result<Seq<HitView>, Seq<char>>,
    shorts: Seq<Seq<char>>,
    now: Seq<char>,
) -> Result<Seq<char>, Seq<char>> {
    tool_answer(t, tool_name(req), tool_arguments(req), hits, shorts, now)
}

/// What a request is answered, if it is.
pub open spec fn response_to(
    t: Tables,
    req: RequestView,
    hits: Result<Seq<HitView>, Seq<char>>,
    shorts: Seq<Seq<char>>,
    now: Seq<char>,
) -> Option<ResponseView> {
    if is_notification(req) {
        None
    } else if req.method == "initialize"@ {
        Some(success(req.id, initialize_result()))
    } else if req.method == "ping"@ {
        Some(success(req.id, empty_object()))
    } else if req.method == "tools/list"@ {
        Some(
            success(req.id, empty_object().with("tools"@, JsonView::Array(tool_definitions()))),
        )
    } else if req.method == "tools/call"@ {
        Some(
            success(
                req.id,
                tool_reply(tool_name(req), tool_outcome(t, req, hits, shorts, now)),
            ),
        )
    } else {
        Some(failure(req.id, -32601, "Method not found: "@ + req.method))
    }
}

/// What an index is asked before a request is handled.
#[derive(Debug)]
pub enum Lookup {
    Nothing,
    Text { query: String },
    Vector { embedding: Vec<Number>, k: usize },
}

/// The value of a [`Lookup`].
#[verifier::ext_equal]
pub ghost enum LookupView {
    Nothing,
    Text { query: Seq<char> },
    Vector { embedding: Seq<NumberView>, k: nat },
}

impl View for Lookup {
    type V = LookupView;

    open spec fn view(&self) -> LookupView {
        match *self {
            Lookup::Nothing => LookupView::Nothing,
            Lookup::Text { query } => LookupView::Text { query: query@ },
            Lookup::Vector { embedding, k } => LookupView::Vector {
                embedding: number_rows(embedding@),
                k: k as nat,
            },
        }
    }
}

/// What an index is asked before a request is handled.
pub open spec fn lookup_of(req: RequestView) -> LookupView {
    match requested_call(req) {
        Some(CallView::Search { options }) => if terms(options.query).len() > 0 {
            LookupView::Text { query: sanitized(options.query) }
        } else {
            LookupView::Nothing
        },
        Some(CallView::SearchVector { embedding, limit }) => LookupView::Vector {
            embedding: embedding,
            k: clamped(limit),
        },
        _ => LookupView::Nothing,
    }
}

/// The text of a request in a line of input, where the line holds one.
pub fn request_text(line: &str) -> (res: Option<&str>)
    ensures
        match res {
            Some(text) => text@ == trimmed(line@) && trimmed(line@).len() > 0,
            None => trimmed(line@).len() == 0,
        },
{
    let text = trim(line);
    proof {
        reveal_strlit("");
    }
    if same_text(text, "") {
        None
    } else {
        proof {
            if text@.len() == 0 {
                assert(text@ =~= ""@);
            }
        }
        Some(text)
    }
}

/// The reply to a line of input that is no request.
pub fn parse_failure(message: &str) -> (res: JsonRpcResponse)
    ensures
        res@ == failure(None, -32700, "Parse error: "@ + message@),
{
    let mut text = "Parse error: ".to_owned();
    text.append(message);
    JsonRpcResponse {
        jsonrpc: "2.0",
        id: None,
        result: None,
        error: Some(JsonRpcError { code: -32700, message: text, data: None }),
    }
}

/// A reply with a result.
fn succeed(id: Option<Json>, result: Json) -> (res: JsonRpcResponse)
    ensures
        res@ == success(opt_json(id), result@),
{
    JsonRpcResponse { jsonrpc: "2.0", id, result: Some(result), error: None }
}

/// What the server tells of itself.
fn make_initialize_result() -> (res: Json)
    ensures
        res@ == initialize_result(),
{
    let tools = Json::object().with("listChanged", Json::Bool(false));
    let capabilities = Json::object().with("tools", tools);
    let info = Json::object().with("name", Json::text("memdag")).with(
        "version",
        Json::text(VERSION),
    );
    Json::object().with("protocolVersion", Json::text("2024-11-05")).with(
        "capabilities",
        capabilities,
    ).with("serverInfo", info).with("instructions", Json::text(INSTRUCTIONS))
}

/// What a tool answered, for a client.
fn make_tool_result(text: &str, is_error: bool) -> (res: Json)
    ensures
        res@ == tool_result(text@, is_error),
{
    let part = Json::object().with("type", Json::text("text")).with("text", Json::text(text));
    Json::object().with("content", Json::array().item(part)).with("isError", Json::Bool(is_error))
}

/// What the outcome of a tool is told as.
pub fn make_tool_reply(name: &str, outcome: &Result<String, String>) -> (res: Json)
    ensures
        res@ == tool_reply(name@, answer_value(*outcome)),
{
    match outcome {
        Ok(text) => make_tool_result(text.as_str(), false),
        Err(message) => {
            let mut text = "Error executing tool '".to_owned();
            text.append(name);
            text.append("': ");
            text.append(message.as_str());
            make_tool_result(text.as_str(), true)
        },
    }
}

impl JsonRpcRequest {
    /// Whether no reply may be sent.
    pub fn is_notification(&self) -> (res: bool)
        ensures
            res == is_notification(self@),
    {
        match &self.id {
            None => true,
            Some(Json::Null) => true,
            Some(_) => false,
        }
    }

    /// The tool that the request names.
    pub fn tool_name(&self) -> (res: String)
        ensures
            res@ == tool_name(self@),
    {
        match &self.params {
            Some(params) => match params.text_at("name") {
                Some(name) => name.to_owned(),
                None => String::new(),
            },
            None => String::new(),
        }
    }

    /// The arguments that the request has for its tool, if it has any.
    pub fn tool_arguments(&self) -> (res: Option<&Json>)
        ensures
            match res {
                Some(arguments) => arguments@ == tool_arguments(self@),
                None => tool_arguments(self@) == empty_object(),
            },
            res is Some <==> params_of(self@).get("arguments"@) is Some,
    {
        match &self.params {
            Some(params) => params.get("arguments"),
            None => None,
        }
    }

    /// What the request asks its tool for.
    pub fn tool_call(&self) -> (res: Result<ToolCall, String>)
        ensures
            match res {
                Ok(call) => call_of(tool_name(self@), tool_arguments(self@)) == Ok::<
                    CallView,
                    Seq<char>,
                >(call@),
                Err(message) => call_of(tool_name(self@), tool_arguments(self@)) == Err::<
                    CallView,
                    Seq<char>,
                >(message@),
            },
    {
        let name = self.tool_name();
        let none = Json::object();
        match self.tool_arguments() {
            Some(arguments) => read_call(name.as_str(), arguments),
            None => read_call(name.as_str(), &none),
        }
    }

    /// How many new identifiers the request needs.
    pub fn count_ids(&self) -> (res: usize)
        ensures
            res == request_ids(self@),
    {
        if same_text(self.method.as_str(), "tools/call") {
            match self.tool_call() {
                Ok(call) => count_ids(&call),
                Err(_) => 0,
            }
        } else {
            0
        }
    }

    /// Whether the request may change the graph.
    pub fn may_change(&self) -> (res: bool)
        ensures
            !res ==> forall|t: Tables, shorts: Seq<Seq<char>>, now: Seq<char>| #[trigger]
                request_changes(t, self@, shorts, now) == Seq::<ChangeView>::empty(),
            res == match requested_call(self@) {
                Some(call) => call is Record || call is Link || call is Resolve
                    || call is Consolidate,
                None => false,
            },
    {
        if same_text(self.method.as_str(), "tools/call") {
            match self.tool_call() {
                Ok(call) => may_change(&call),
                Err(_) => false,
            }
        } else {
            false
        }
    }

    /// What an index is to be asked before the request is handled.
    pub fn lookup(&self) -> (res: Lookup)
        ensures
            res@ == lookup_of(self@),
    {
        if same_text(self.method.as_str(), "tools/call") {
            match self.tool_call() {
                Ok(ToolCall::Search { options }) => match index_query(&options) {
                    Some(query) => Lookup::Text { query },
                    None => Lookup::Nothing,
                },
                Ok(ToolCall::SearchVector { embedding, limit }) => Lookup::Vector {
                    embedding,
                    k: clamp_limit(limit),
                },
                _ => Lookup::Nothing,
            }
        } else {
            Lookup::Nothing
        }
    }
}

/// A server for one graph.
pub struct McpServer {
    pub store: MemoryStore,
}

/// The value of an optional reply.
pub open spec fn opt_response(res: Option<JsonRpcResponse>) -> Option<ResponseView> {
    match res {
        Some(r) => Some(r@),
        None => None,
    }
}

/// What handling a request with the given short texts does and returns.
pub open spec fn handled(
    old: McpServer,
    new: McpServer,
    req: RequestView,
    hits: Result<Seq<HitView>, Seq<char>>,
    shorts: Seq<Seq<char>>,
    now: Seq<char>,
    res: Option<JsonRpcResponse>,
) -> bool {
    &&& committed(old.store, new.store, request_changes(old.store@, req, shorts, now))
    &&& opt_response(res) == response_to(old.store@, req, hits, shorts, now)
}

impl McpServer {
    /// A server for the graph.
    pub fn new(store: MemoryStore) -> (res: McpServer)
        ensures
            res.store == store,
    {
        McpServer { store }
    }

    /// The tools that clients are offered.
    pub fn get_tool_definitions(&self) -> (res: Vec<Json>)
        ensures
            item_rows(res@) == tool_definitions(),
    {
        get_tool_definitions()
    }

    /// Runs the tool `name`, with the given short texts for the identifiers that
    /// it needs.
    pub fn execute_tool(
        &mut self,
        name: &str,
        args: &Json,
        hits: &Result<Vec<Hit>, String>,
        shorts: &Vec<String>,
        now: &str,
    ) -> (res: Result<String, String>)
        requires
            old(self).store.valid(),
            shorts@.len() == tool_ids(name@, args@),
        ensures
            committed(
                old(self).store,
                final(self).store,
                tool_changes(old(self).store@, name@, args@, texts(shorts@), now@),
            ),
            answer_value(res) == tool_answer(
                old(self).store@,
                name@,
                args@,
                hits_value(*hits),
                texts(shorts@),
                now@,
            ),
    {
        match read_call(name, args) {
            Ok(call) => answer(&mut self.store, call, hits, shorts, now),
            Err(message) => {
                proof {
                    lemma_refused_committed(self.store, self.store);
                }
                Err(message)
            },
        }
    }

    /// Handles a request at the time `now`. `hits` is what the index gave that
    /// [`JsonRpcRequest::lookup`] asks, or why it gave nothing.
    pub fn handle_request(
        &mut self,
        req: JsonRpcRequest,
        hits: &Result<Vec<Hit>, String>,
        now: &str,
    ) -> (res: Option<JsonRpcResponse>)
        requires
            old(self).store.valid(),
        ensures
            exists|shorts: Seq<Seq<char>>| #[trigger]
                short_texts(shorts, request_ids(req@)) && handled(
                    *old(self),
                    *final(self),
                    req@,
                    hits_value(*hits),
                    shorts,
                    now@,
                    res,
                ),
    {
        let shorts = draw_short_texts(req.count_ids());
        let ghost drawn = texts(shorts@);
        proof {
            assert(short_texts(drawn, request_ids(req@)));
        }
        self.handle_request_as(req, hits, &shorts, now)
    }

    /// Handles a request with the given short texts for the identifiers that it
    /// needs.
    pub fn handle_request_as(
        &mut self,
        req: JsonRpcRequest,
        hits: &Result<Vec<Hit>, String>,
        shorts: &Vec<String>,
        now: &str,
    ) -> (res: Option<JsonRpcResponse>)
        requires
            old(self).store.valid(),
            shorts@.len() == request_ids(req@),
        ensures
            handled(*old(self), *final(self), req@, hits_value(*hits), texts(shorts@), now@, res),
    {
        proof {
            lemma_refused_committed(self.store, self.store);
        }
        let silent = req.is_notification();
        if same_text(req.method.as_str(), "tools/call") {
            let name = req.tool_name();
            let none = Json::object();
            let args = match req.tool_arguments() {
                Some(args) => args,
                None => &none,
            };
            let outcome = self.execute_tool(name.as_str(), args, hits, shorts, now);
            if silent {
                return None;
            }
            let reply = make_tool_reply(name.as_str(), &outcome);
            proof {
                lemma_methods_differ();
            }
            return Some(succeed(req.id, reply));
        }
        if silent {
            return None;
        }
        if same_text(req.method.as_str(), "initialize") {
            return Some(succeed(req.id, make_initialize_result()));
        }
        if same_text(req.method.as_str(), "ping") {
            return Some(succeed(req.id, Json::object()));
        }
        if same_text(req.method.as_str(), "tools/list") {
            let tools = self.get_tool_definitions();
            let list = Json::Array(tools);
            proof {
                lemma_array_view(tools);
            }
            return Some(succeed(req.id, Json::object().with("tools", list)));
        }
        let mut message = "Method not found: ".to_owned();
        message.append(req.method.as_str());
        Some(
            JsonRpcResponse {
                jsonrpc: "2.0",
                id: req.id,
                result: None,
                error: Some(JsonRpcError { code: -32601, message, data: None }),
            },
        )
    }
}

/// The method for calling tools is none of the others.
proof fn lemma_methods_differ()
    ensures
        "tools/call"@ != "initialize"@,
        "tools/call"@ != "ping"@,
        "tools/call"@ != "tools/list"@,
{
    reveal_strlit("tools/call");
    reveal_strlit("initialize");
    reveal_strlit("ping");
    reveal_strlit("tools/list");
    assert("tools/call"@[0] != "initialize"@[0]);
    assert("tools/call"@.len() != "ping"@.len());
    assert("tools/call"@[6] != "tools/list"@[6]);
}

/// A request is answered if and only if it has an identifier; the reply carries
/// that identifier and either a result or an error.
pub proof fn law_replies(
    t: Tables,
    req: RequestView,
    hits: Result<Seq<HitView>, Seq<char>>,
    shorts: Seq<Seq<char>>,
    now: Seq<char>,
)
    ensures
        response_to(t, req, hits, shorts, now) is Some <==> !is_notification(req),
        response_to(t, req, hits, shorts, now) matches Some(r) ==> r.jsonrpc == "2.0"@ && r.id
            == req.id && (r.result is Some <==> r.error is None),
{
}

/// A tool that fails changes nothing, and the client is told why.
pub proof fn law_failed_tool(
    t: Tables,
    req: RequestView,
    hits: Result<Seq<HitView>, Seq<char>>,
    shorts: Seq<Seq<char>>,
    now: Seq<char>,
)
    requires
        req.method == "tools/call"@,
        tool_outcome(t, req, hits, shorts, now) is Err,
    ensures
        request_changes(t, req, shorts, now) == Seq::<ChangeView>::empty(),
        !is_notification(req) ==> response_to(t, req, hits, shorts, now) == Some(
            success(
                req.id,
                tool_result(
                    tool_error_text(
                        tool_name(req),
                        tool_outcome(t, req, hits, shorts, now)->Err_0,
                    ),
                    true,
                ),
            ),
        ),
{
    lemma_methods_differ();
}

/// Only calls of the tools that record, link, resolve and consolidate change
/// the graph.
pub proof fn law_readers_change_nothing(
    t: Tables,
    req: RequestView,
    shorts: Seq<Seq<char>>,
    now: Seq<char>,
)
    requires
        requested_call(req) matches Some(call) ==> call is Search || call is SearchVector
            || call is Get || call is List || call is Ready,
    ensures
        request_changes(t, req, shorts, now) == Seq::<ChangeView>::empty(),
{
}

/// A message that does not speak of an unknown tool.
spec fn is_other_message(e: Seq<char>) -> bool {
    e.len() > 0 && e[0] != 'U'
}

/// Where a list of learnings is wrong, the message speaks of a learning.
proof fn lemma_learning_message(items: Seq<JsonView>)
    ensures
        learnings_of(items) matches Err(e) ==> is_other_message(e),
    decreases items.len(),
{
    reveal_strlit("Learning missing 'title'");
    reveal_strlit("Learning missing 'body'");
    if items.len() > 0 {
        lemma_learning_message(items.drop_last());
    }
}

/// Where a known tool refuses its arguments, it says what is wrong with them.
proof fn lemma_known_tool_message(name: Seq<char>, args: JsonView)
    requires
        tool_names().contains(name),
    ensures
        call_of(name, args) matches Err(e) ==> is_other_message(e),
{
    reveal_strlit("Missing 'kind' parameter");
    reveal_strlit("Missing 'title' parameter");
    reveal_strlit("Missing 'body' parameter");
    reveal_strlit("Missing 'source_id'");
    reveal_strlit("Missing 'target_id'");
    reveal_strlit("Missing 'relation_type'");
    reveal_strlit("Missing 'embedding' array");
    reveal_strlit("'embedding' must hold numbers only");
    reveal_strlit("Missing 'id' parameter");
    reveal_strlit("Missing 'session_id'");
    reveal_strlit("Missing 'learnings' array");
    reveal_strlit("Invalid memory kind: ");
    reveal_strlit("Invalid relation type: ");
    if let Some(items) = args.array_at("learnings"@) {
        lemma_learning_message(items);
    }
}

/// Every tool that clients are offered is one that can be called.
pub proof fn law_offered_tools(i: int, args: JsonView)
    requires
        0 <= i < tool_definitions().len(),
    ensures
        tool_definitions()[i].text_at("name"@) matches Some(name) && call_of(name, args) != Err::<
            CallView,
            Seq<char>,
        >("Unknown tool: '"@ + name + "'"@),
{
    lemma_tool_named(i);
    let name = tool_names()[i];
    assert(tool_names().contains(name));
    lemma_known_tool_message(name, args);
    assert(("Unknown tool: '"@ + name + "'"@)[0] == 'U') by {
        reveal_strlit("Unknown tool: '");
    }
}

} // verus!

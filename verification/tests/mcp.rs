use memdag::json::{Json, Number};
use memdag::mcp::{
    make_tool_reply, parse_failure, request_text, JsonRpcRequest, JsonRpcResponse, Lookup,
    McpServer, INSTRUCTIONS, VERSION,
};
use memdag::search::Hit;
use memdag::MemoryStore;

const T: &str = "2026-03-01 10:00:00";

fn request(id: Option<Json>, method: &str, params: Option<Json>) -> JsonRpcRequest {
    JsonRpcRequest { jsonrpc: "2.0".to_string(), id, method: method.to_string(), params }
}

fn number(n: u64) -> Json {
    Json::Number(Number::Natural(n))
}

fn call(name: &str, arguments: Json) -> JsonRpcRequest {
    let params = Json::object().with("name", Json::text(name)).with("arguments", arguments);
    request(Some(number(7)), "tools/call", Some(params))
}

fn server() -> McpServer {
    McpServer::new(MemoryStore::new())
}

fn text_of(resp: &JsonRpcResponse) -> (String, bool) {
    let result = resp.result.as_ref().expect("result");
    let content = result.array_at("content").expect("content");
    assert_eq!(content.len(), 1);
    assert_eq!(content[0].text_at("type"), Some("text"));
    (
        content[0].text_at("text").expect("text").to_string(),
        result.bool_at("isError").expect("isError"),
    )
}

fn run(server: &mut McpServer, name: &str, arguments: Json) -> (String, bool) {
    let resp = server.handle_request(call(name, arguments), &Ok(vec![]), T).expect("reply");
    assert_eq!(resp.jsonrpc, "2.0");
    assert_eq!(format!("{:?}", resp.id), format!("{:?}", Some(number(7))));
    assert!(resp.error.is_none());
    text_of(&resp)
}

fn ok(server: &mut McpServer, name: &str, arguments: Json) -> String {
    let (text, is_error) = run(server, name, arguments);
    assert!(!is_error, "{}", text);
    text
}

fn failed(server: &mut McpServer, name: &str, arguments: Json) -> String {
    let (text, is_error) = run(server, name, arguments);
    assert!(is_error, "{}", text);
    text
}

fn memory(kind: &str, id: &str) -> Json {
    Json::object()
        .with("kind", Json::text(kind))
        .with("title", Json::text(&format!("title of {}", id)))
        .with("body", Json::text(&format!("body of {}", id)))
        .with("id", Json::text(id))
}

fn link(source: &str, target: &str, relation: &str) -> Json {
    Json::object()
        .with("source_id", Json::text(source))
        .with("target_id", Json::text(target))
        .with("relation_type", Json::text(relation))
}

#[test]
fn initialize_tells_what_the_server_is() {
    let resp = server()
        .handle_request(request(Some(Json::text("a")), "initialize", None), &Ok(vec![]), T)
        .expect("reply");
    assert_eq!(format!("{:?}", resp.id), format!("{:?}", Some(Json::text("a"))));
    let result = resp.result.expect("result");
    assert_eq!(result.text_at("protocolVersion"), Some("2024-11-05"));
    let tools = result.get("capabilities").expect("capabilities").get("tools").expect("tools");
    assert_eq!(tools.bool_at("listChanged"), Some(false));
    let info = result.get("serverInfo").expect("serverInfo");
    assert_eq!(info.text_at("name"), Some("memdag"));
    assert_eq!(info.text_at("version"), Some(VERSION));
    assert_eq!(result.text_at("instructions"), Some(INSTRUCTIONS));
    for tool in
        ["search_memory", "record_memory", "link_entities", "list_ready", "consolidate_session"]
    {
        assert!(INSTRUCTIONS.contains(tool));
    }
}

#[test]
fn ping_is_answered_with_nothing() {
    let resp = server()
        .handle_request(request(Some(number(1)), "ping", None), &Ok(vec![]), T)
        .expect("reply");
    assert_eq!(format!("{:?}", resp.result), format!("{:?}", Some(Json::object())));
    assert!(resp.error.is_none());
}

#[test]
fn tools_are_listed_and_known() {
    let mut mcp = server();
    let resp = mcp
        .handle_request(request(Some(number(1)), "tools/list", None), &Ok(vec![]), T)
        .expect("reply");
    let result = resp.result.expect("result");
    let tools = result.array_at("tools").expect("tools");
    let names: Vec<&str> = tools.iter().map(|t| t.text_at("name").expect("name")).collect();
    assert_eq!(
        names,
        vec![
            "record_memory",
            "link_entities",
            "search_memory",
            "search_vector",
            "get_memory",
            "list_memories",
            "list_ready",
            "resolve_memory",
            "consolidate_session"
        ]
    );
    for tool in tools {
        let schema = tool.get("inputSchema").expect("schema");
        assert_eq!(schema.text_at("type"), Some("object"));
        let properties = schema.get("properties").expect("properties");
        for name in schema.array_at("required").expect("required") {
            match name {
                Json::Text(name) => assert!(properties.get(name).is_some()),
                other => panic!("{:?}", other),
            }
        }
    }
    let kinds = tools[0]
        .get("inputSchema")
        .and_then(|s| s.get("properties"))
        .and_then(|p| p.get("kind"))
        .and_then(|k| k.array_at("enum"))
        .expect("kinds");
    assert_eq!(kinds.len(), 5);
    assert_eq!(mcp.get_tool_definitions().len(), 9);
    for name in names {
        let (text, _) = run(&mut mcp, name, Json::object());
        assert!(!text.contains("Unknown tool"));
    }
}

#[test]
fn notifications_are_never_answered() {
    let mut mcp = server();
    for id in [None, Some(Json::Null)] {
        for method in [
            "notifications/initialized",
            "initialized",
            "$/cancelRequest",
            "initialize",
            "ping",
            "tools/list",
            "telemetry/custom",
        ] {
            let id = match &id {
                None => None,
                Some(_) => Some(Json::Null),
            };
            let req = request(id, method, None);
            assert!(req.is_notification());
            assert!(mcp.handle_request(req, &Ok(vec![]), T).is_none());
        }
    }
}

#[test]
fn silent_tool_calls_still_take_effect() {
    let mut mcp = server();
    let params = Json::object()
        .with("name", Json::text("record_memory"))
        .with("arguments", memory("task", "T1"));
    let req = request(None, "tools/call", Some(params));
    assert!(req.may_change());
    assert!(mcp.handle_request(req, &Ok(vec![]), T).is_none());
    assert!(mcp.store.get_memory("T1").is_some());
}

#[test]
fn unknown_methods_are_errors() {
    let resp = server()
        .handle_request(request(Some(number(3)), "resources/list", None), &Ok(vec![]), T)
        .expect("reply");
    assert!(resp.result.is_none());
    let error = resp.error.expect("error");
    assert_eq!(error.code, -32601);
    assert_eq!(error.message, "Method not found: resources/list");
    assert!(error.data.is_none());
    assert_eq!(format!("{:?}", resp.id), format!("{:?}", Some(number(3))));
}

#[test]
fn requests_with_an_identifier_are_always_answered() {
    let mut mcp = server();
    for method in ["notifications/initialized", "initialized", "$/cancelRequest"] {
        let resp = mcp
            .handle_request(request(Some(number(0)), method, None), &Ok(vec![]), T)
            .expect("reply");
        assert_eq!(resp.error.expect("error").code, -32601);
    }
}

#[test]
fn lines_without_text_are_skipped() {
    assert_eq!(request_text("  {\"a\": 1}\t"), Some("{\"a\": 1}"));
    assert_eq!(request_text(" \t\n"), None);
    assert_eq!(request_text(""), None);
}

#[test]
fn unreadable_lines_are_answered_without_an_identifier() {
    let resp = parse_failure("expected value at line 1 column 1");
    assert!(resp.id.is_none());
    assert!(resp.result.is_none());
    let error = resp.error.expect("error");
    assert_eq!(error.code, -32700);
    assert_eq!(error.message, "Parse error: expected value at line 1 column 1");
}

#[test]
fn unknown_tools_are_refused() {
    let mut mcp = server();
    assert_eq!(
        failed(&mut mcp, "forget", Json::object()),
        "Error executing tool 'forget': Unknown tool: 'forget'"
    );
    let resp = mcp
        .handle_request(request(Some(number(7)), "tools/call", None), &Ok(vec![]), T)
        .expect("reply");
    assert_eq!(
        text_of(&resp),
        ("Error executing tool '': Unknown tool: ''".to_string(), true)
    );
}

#[test]
fn record_memory_reports_what_it_recorded() {
    let mut mcp = server();
    assert_eq!(
        ok(&mut mcp, "record_memory", memory("Task", "T1")),
        "Successfully recorded memory [T1] (kind: task, status: active)\nTitle: title of T1"
    );
    assert_eq!(
        ok(&mut mcp, "record_memory", memory("ephemeral", "E1")),
        "Successfully recorded memory [E1] (kind: ephemeral, status: ephemeral)\nTitle: title of E1"
    );
    let made = ok(
        &mut mcp,
        "record_memory",
        Json::object()
            .with("kind", Json::text("decision"))
            .with("title", Json::text("x"))
            .with("body", Json::text("y"))
            .with("supersedes_id", Json::text("T1"))
            .with("tags", Json::text("a"))
            .with("session_id", Json::text("s")),
    );
    assert!(made.starts_with("Successfully recorded memory [DEC-"));
    let (t1, rels) = mcp.store.get_memory("T1").expect("found");
    assert_eq!(t1.status, memdag::MemoryStatus::Superseded);
    assert_eq!(rels.len(), 1);
}

#[test]
fn record_memory_says_what_is_missing() {
    let mut mcp = server();
    let prefix = "Error executing tool 'record_memory': ";
    let kind = || Json::object().with("kind", Json::text("task"));
    assert_eq!(
        failed(&mut mcp, "record_memory", Json::Null),
        format!("{}Missing 'kind' parameter", prefix)
    );
    assert_eq!(
        failed(&mut mcp, "record_memory", Json::object().with("kind", number(1))),
        format!("{}Missing 'kind' parameter", prefix)
    );
    assert_eq!(
        failed(&mut mcp, "record_memory", Json::object().with("kind", Json::text("X "))),
        format!("{}Invalid memory kind: x. Must be one of: decision, task, invariant, blocker, ephemeral", prefix)
    );
    assert_eq!(
        failed(&mut mcp, "record_memory", kind()),
        format!("{}Missing 'title' parameter", prefix)
    );
    assert_eq!(
        failed(&mut mcp, "record_memory", kind().with("title", Json::text("t"))),
        format!("{}Missing 'body' parameter", prefix)
    );
    assert_eq!(
        failed(&mut mcp, "record_memory", memory("task", "A").with("supersedes_id", Json::text("Z"))),
        format!("{}Target supersedes_id 'Z' does not exist", prefix)
    );
    assert_eq!(mcp.store.stats().total_memories, 0);
    assert!(mcp.store.take_changes().is_empty());
}

#[test]
fn link_entities_links() {
    let mut mcp = server();
    ok(&mut mcp, "record_memory", memory("task", "A"));
    ok(&mut mcp, "record_memory", memory("blocker", "B"));
    assert_eq!(
        ok(&mut mcp, "link_entities", link("B", "A", "block")),
        "Successfully linked: [B] --(blocks)--> [A]"
    );
    let prefix = "Error executing tool 'link_entities': ";
    assert_eq!(
        failed(&mut mcp, "link_entities", link("B", "C", "blocks")),
        format!("{}Target entity 'C' not found", prefix)
    );
    assert_eq!(
        failed(&mut mcp, "link_entities", link("B", "A", "eats")),
        format!("{}Invalid relation type: eats. Must be one of: supersedes, depends_on, blocks, references", prefix)
    );
    assert_eq!(
        failed(&mut mcp, "link_entities", Json::object()),
        format!("{}Missing 'source_id'", prefix)
    );
    let source = || Json::object().with("source_id", Json::text("B"));
    assert_eq!(
        failed(&mut mcp, "link_entities", source()),
        format!("{}Missing 'target_id'", prefix)
    );
    assert_eq!(
        failed(&mut mcp, "link_entities", source().with("target_id", Json::text("A"))),
        format!("{}Missing 'relation_type'", prefix)
    );
}

#[test]
fn get_memory_shows_details() {
    let mut mcp = server();
    ok(&mut mcp, "record_memory", memory("task", "TSK-002"));
    ok(&mut mcp, "record_memory", memory("blocker", "BLK-004").with("tags", Json::text("mac")));
    ok(&mut mcp, "link_entities", link("BLK-004", "TSK-002", "blocks"));
    assert_eq!(
        ok(&mut mcp, "get_memory", Json::object().with("id", Json::text("TSK-002"))),
        "### [TSK-002] title of TSK-002 (kind: task, status: active)\n\
         - **Body**: body of TSK-002\n\
         - **Relations (1-Hop DAG)**:\n  - `blocked_by` ◄ [BLK-004] title of BLK-004 (active)\n"
    );
    assert_eq!(
        ok(&mut mcp, "get_memory", Json::object().with("id", Json::text("BLK-004"))),
        "### [BLK-004] title of BLK-004 (kind: blocker, status: active)\n\
         - **Tags**: mac\n\
         - **Body**: body of BLK-004\n\
         - **Relations (1-Hop DAG)**:\n  - `blocks` ➔ [TSK-002] title of TSK-002 (active)\n"
    );
    assert_eq!(
        ok(&mut mcp, "get_memory", Json::object().with("id", Json::text("Z"))),
        "Memory with ID 'Z' not found."
    );
    assert_eq!(
        failed(&mut mcp, "get_memory", Json::object()),
        "Error executing tool 'get_memory': Missing 'id' parameter"
    );
}

#[test]
fn lists_are_told_line_by_line() {
    let mut mcp = server();
    assert_eq!(ok(&mut mcp, "list_memories", Json::object()), "No memories found.");
    assert_eq!(ok(&mut mcp, "list_ready", Json::object()), "No ready tasks or blockers found.");
    ok(&mut mcp, "record_memory", memory("task", "A"));
    ok(&mut mcp, "record_memory", memory("blocker", "B"));
    ok(&mut mcp, "record_memory", memory("invariant", "C"));
    ok(&mut mcp, "link_entities", link("B", "A", "blocks"));
    assert_eq!(
        ok(&mut mcp, "list_memories", Json::object()),
        "- [A] title of A (kind: task, status: active)\n\
         - [B] title of B (kind: blocker, status: active)\n\
         - [C] title of C (kind: invariant, status: active)\n"
    );
    assert_eq!(
        ok(&mut mcp, "list_memories", Json::object().with("limit", number(1))),
        "- [A] title of A (kind: task, status: active)\n"
    );
    assert_eq!(
        ok(
            &mut mcp,
            "list_memories",
            Json::object().with("kind", Json::text("INVARIANT")).with("status", Json::text("active"))
        ),
        "- [C] title of C (kind: invariant, status: active)\n"
    );
    assert_eq!(
        ok(&mut mcp, "list_memories", Json::object().with("status", Json::text("resolved"))),
        "No memories found."
    );
    assert_eq!(
        ok(&mut mcp, "list_ready", Json::object()),
        "- [B] title of B (kind: blocker, status: active)\n"
    );
    let id_and_note =
        Json::object().with("id", Json::text("B")).with("note", Json::text("gone"));
    assert_eq!(
        ok(&mut mcp, "resolve_memory", id_and_note),
        "Resolved memory [B] title of B (status: resolved)"
    );
    assert_eq!(
        ok(&mut mcp, "list_ready", Json::object()),
        "- [A] title of A (kind: task, status: active)\n"
    );
    assert_eq!(
        mcp.store.get_memory("B").expect("found").0.body,
        "body of B\n\n[Resolved]: gone"
    );
    assert_eq!(
        failed(&mut mcp, "resolve_memory", Json::object().with("id", Json::text("Z"))),
        "Error executing tool 'resolve_memory': Memory 'Z' not found"
    );
    assert_eq!(
        failed(&mut mcp, "resolve_memory", Json::object()),
        "Error executing tool 'resolve_memory': Missing 'id' parameter"
    );
}

#[test]
fn twenty_memories_are_listed_by_default() {
    let mut mcp = server();
    for i in 0..25 {
        ok(&mut mcp, "record_memory", memory("task", &format!("T{}", i)));
    }
    assert_eq!(ok(&mut mcp, "list_memories", Json::object()).lines().count(), 20);
    assert_eq!(ok(&mut mcp, "list_ready", Json::object()).lines().count(), 20);
    let text = ok(&mut mcp, "search_memory", Json::object());
    assert!(text.starts_with("Found 10 relevant"));
}

#[test]
fn search_memory_asks_the_text_index() {
    let mut mcp = server();
    ok(&mut mcp, "record_memory", memory("task", "A"));
    ok(&mut mcp, "record_memory", memory("decision", "B"));
    let query = |q: &str| Json::object().with("query", Json::text(q));
    match call("search_memory", query("sqlite: wal")).lookup() {
        Lookup::Text { query } => assert_eq!(query, "\"sqlite\"* \"wal\"*"),
        other => panic!("{:?}", other),
    }
    assert!(matches!(call("search_memory", query(" ")).lookup(), Lookup::Nothing));
    assert!(matches!(call("get_memory", query("a")).lookup(), Lookup::Nothing));
    assert!(!call("search_memory", query("a")).may_change());
    let hits = Ok(vec![
        Hit { id: "B".to_string(), score: 1 },
        Hit { id: "A".to_string(), score: 2 },
    ]);
    let args = query("x").with("kind", Json::text("decision")).with("limit", number(5));
    let resp = mcp.handle_request(call("search_memory", args), &hits, T).expect("reply");
    let (text, is_error) = text_of(&resp);
    assert!(!is_error);
    assert!(text.starts_with("Found 1 relevant active memory/DAG entries:\n\n### 1. [B]"));
    let args = query("x").with("kind", Json::text("no kind"));
    let resp = mcp.handle_request(call("search_memory", args), &hits, T).expect("reply");
    assert!(text_of(&resp).0.starts_with("Found 2 relevant"));
    ok(&mut mcp, "resolve_memory", Json::object().with("id", Json::text("B")));
    let resp = mcp.handle_request(call("search_memory", query("x")), &hits, T).expect("reply");
    assert!(text_of(&resp).0.starts_with("Found 1 relevant"));
    let args = query("x").with("include_resolved", Json::Bool(true));
    let resp = mcp.handle_request(call("search_memory", args), &hits, T).expect("reply");
    assert!(text_of(&resp).0.starts_with("Found 2 relevant"));
    let failed = Err("no such index".to_string());
    let resp = mcp.handle_request(call("search_memory", query("x")), &failed, T).expect("reply");
    assert_eq!(
        text_of(&resp),
        ("Error executing tool 'search_memory': no such index".to_string(), true)
    );
    let resp = mcp.handle_request(call("search_memory", query("")), &failed, T).expect("reply");
    assert!(!text_of(&resp).1);
}

#[test]
fn search_vector_asks_the_vector_index() {
    let mut mcp = server();
    ok(&mut mcp, "record_memory", memory("task", "A"));
    let embedding = Json::array()
        .item(number(1))
        .item(Json::Number(Number::Negative(-2)))
        .item(Json::Number(Number::Float("0.5".to_string())));
    let args = || Json::object().with("limit", number(500));
    let req = call("search_vector", args().with("embedding", embedding));
    match req.lookup() {
        Lookup::Vector { embedding, k } => {
            assert_eq!(k, 100);
            assert_eq!(
                embedding,
                vec![Number::Natural(1), Number::Negative(-2), Number::Float("0.5".to_string())]
            );
        }
        other => panic!("{:?}", other),
    }
    let hits = Ok(vec![Hit { id: "A".to_string(), score: 0 }]);
    let resp = mcp.handle_request(req, &hits, T).expect("reply");
    assert!(text_of(&resp).0.starts_with("Found 1 relevant"));
    let prefix = "Error executing tool 'search_vector': ";
    assert_eq!(
        failed(&mut mcp, "search_vector", args()),
        format!("{}Missing 'embedding' array", prefix)
    );
    let mixed = Json::array().item(number(1)).item(Json::text("2"));
    assert_eq!(
        failed(&mut mcp, "search_vector", args().with("embedding", mixed)),
        format!("{}'embedding' must hold numbers only", prefix)
    );
}

fn learning(title: Option<&str>, body: Option<&str>, kind: Option<&str>) -> Json {
    let mut item = Json::object();
    if let Some(t) = title {
        item = item.with("title", Json::text(t));
    }
    if let Some(b) = body {
        item = item.with("body", Json::text(b));
    }
    if let Some(k) = kind {
        item = item.with("kind", Json::text(k));
    }
    item
}

#[test]
fn consolidate_session_sums_up() {
    let mut mcp = server();
    let note = memory("ephemeral", "E1").with("session_id", Json::text("s"));
    ok(&mut mcp, "record_memory", note);
    let learnings = Json::array()
        .item(learning(Some("a"), Some("b"), Some("invariant")))
        .item(learning(Some("c"), Some("d"), Some("nonsense")));
    let args =
        Json::object().with("session_id", Json::text("s")).with("learnings", learnings);
    let req = call("consolidate_session", args);
    assert_eq!(req.count_ids(), 2);
    let shorts = vec!["0123abcd".to_string(), "89abcdef".to_string()];
    let resp = mcp.handle_request_as(req, &Ok(vec![]), &shorts, T).expect("reply");
    assert_eq!(
        text_of(&resp),
        (
            "Session 's' consolidated successfully:\n\
             - Permanent learnings recorded: 2\n\
             - Ephemeral items purged: 1\n\
             - Ephemeral items archived: 0\n\
             - Recorded IDs: [\"INV-0123abcd\", \"DEC-89abcdef\"]"
                .to_string(),
            false
        )
    );
    let args = Json::object()
        .with("session_id", Json::text("t"))
        .with("learnings", Json::array())
        .with("purge_ephemeral", Json::Bool(false));
    assert_eq!(
        ok(&mut mcp, "consolidate_session", args),
        "Session 't' consolidated successfully:\n\
         - Permanent learnings recorded: 0\n\
         - Ephemeral items purged: 0\n\
         - Ephemeral items archived: 0\n\
         - Recorded IDs: []"
    );
}

#[test]
fn consolidate_session_says_what_is_wrong() {
    let mut mcp = server();
    let prefix = "Error executing tool 'consolidate_session': ";
    assert_eq!(
        failed(&mut mcp, "consolidate_session", Json::object()),
        format!("{}Missing 'session_id'", prefix)
    );
    let session = || Json::object().with("session_id", Json::text("s"));
    assert_eq!(
        failed(&mut mcp, "consolidate_session", session().with("learnings", Json::text("x"))),
        format!("{}Missing 'learnings' array", prefix)
    );
    let good = || learning(Some("a"), Some("b"), None);
    let no_title = Json::array().item(good()).item(learning(None, Some("b"), None));
    assert_eq!(
        failed(&mut mcp, "consolidate_session", session().with("learnings", no_title)),
        format!("{}Learning missing 'title'", prefix)
    );
    let no_body = Json::array()
        .item(good())
        .item(learning(Some("a"), None, None))
        .item(learning(None, None, None));
    assert_eq!(
        failed(&mut mcp, "consolidate_session", session().with("learnings", no_body)),
        format!("{}Learning missing 'body'", prefix)
    );
    assert_eq!(mcp.store.stats().total_memories, 0);
}

#[test]
fn tools_are_run_by_name() {
    let mut mcp = server();
    let args = memory("task", "A");
    assert_eq!(
        mcp.execute_tool("record_memory", &args, &Ok(vec![]), &vec![], T),
        Ok("Successfully recorded memory [A] (kind: task, status: active)\nTitle: title of A".to_string())
    );
    assert_eq!(
        mcp.execute_tool("forget", &args, &Ok(vec![]), &vec![], T),
        Err("Unknown tool: 'forget'".to_string())
    );
    let req = call("get_memory", Json::object());
    assert!(req.tool_arguments().is_some());
    assert!(request(Some(number(1)), "tools/call", None).tool_arguments().is_none());
}

#[test]
fn tool_outcomes_are_told_as_text() {
    let reply = make_tool_reply("x", &Err("broken".to_string()));
    let content = reply.array_at("content").expect("content");
    assert_eq!(content[0].text_at("text"), Some("Error executing tool 'x': broken"));
    assert_eq!(reply.bool_at("isError"), Some(true));
}

#[test]
fn json_members_are_found_by_key() {
    let j = Json::object().with("a", number(1)).with("b", Json::Bool(true)).with("a", number(2));
    assert_eq!(j.natural_at("a"), Some(1));
    assert_eq!(j.bool_at("b"), Some(true));
    assert_eq!(j.text_at("a"), None);
    assert!(j.get("c").is_none());
    assert!(Json::text("x").with("a", number(1)).get("a").is_none());
    let negative = Json::object().with("n", Json::Number(Number::Negative(-1)));
    assert_eq!(negative.natural_at("n"), None);
    let list = Json::array().item(number(1)).item(Json::Null);
    let j = Json::object().with("l", list);
    assert_eq!(j.array_at("l").expect("list").len(), 2);
}

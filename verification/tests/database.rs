//! The library with a real database behind it.

use memdag::db::{
    memory_from_row, relation_from_row, MemoryRow, RelationRow, CUTOFF_SQL, DDL_SQL, MEMORIES_SQL,
    NOW_SQL, PRAGMA_SQL, RELATIONS_SQL, SCHEMA_PROBE_SQL, TEXT_LOOKUP_SQL,
};
use memdag::json::{Json, Number};
use memdag::mcp::{JsonRpcRequest, Lookup, McpServer};
use memdag::models::{ExportData, MemoryKind, MemoryStatus, RelationType, SessionLearning};
use memdag::search::{index_query, Hit};
use memdag::store::{MemoryStore, RecordOptions, SearchOptions};
use rusqlite::Connection;

fn open_in_memory() -> Connection {
    let conn = Connection::open_in_memory().expect("open in memory db");
    conn.execute_batch(PRAGMA_SQL).expect("pragmas");
    let mut probe = conn.prepare(SCHEMA_PROBE_SQL).expect("probe");
    let exists = probe.exists([]).expect("probe");
    drop(probe);
    assert!(!exists);
    conn.execute_batch(DDL_SQL).expect("schema");
    conn
}

fn now(conn: &Connection) -> String {
    conn.query_row(NOW_SQL, [], |r| r.get(0)).expect("now")
}

fn load(conn: &Connection) -> MemoryStore {
    let mut stmt = conn.prepare(MEMORIES_SQL).expect("memories");
    let memories = stmt
        .query_map([], |r| {
            Ok(memory_from_row(MemoryRow {
                id: r.get(0)?,
                kind: r.get(1)?,
                title: r.get(2)?,
                body: r.get(3)?,
                tags: r.get(4)?,
                status: r.get(5)?,
                session_id: r.get(6)?,
                created_at: r.get(7)?,
                updated_at: r.get(8)?,
            }))
        })
        .expect("memories")
        .map(|m| m.expect("memory"))
        .collect();
    let mut stmt = conn.prepare(RELATIONS_SQL).expect("relations");
    let relations = stmt
        .query_map([], |r| {
            Ok(relation_from_row(RelationRow {
                source_id: r.get(0)?,
                target_id: r.get(1)?,
                relation_type: r.get(2)?,
                created_at: r.get(3)?,
            }))
        })
        .expect("relations")
        .map(|r| r.expect("relation"))
        .collect();
    match MemoryStore::load(ExportData { memories, relations }) {
        Ok(store) => store,
        Err(e) => panic!("{}", e.message()),
    }
}

fn save(conn: &Connection, store: &mut MemoryStore) {
    for change in store.take_changes() {
        let statement = change.statement();
        let params: Vec<&dyn rusqlite::types::ToSql> = statement
            .params
            .iter()
            .map(|p| p as &dyn rusqlite::types::ToSql)
            .collect();
        conn.execute(statement.sql, params.as_slice()).expect("statement");
    }
}

fn text_hits(conn: &Connection, query: &str) -> Vec<Hit> {
    let mut stmt = conn.prepare(TEXT_LOOKUP_SQL).expect("lookup");
    let hits = stmt
        .query_map([query], |r| {
            let id: String = r.get(0)?;
            let score: f64 = r.get(1)?;
            Ok(Hit { id, score: score.to_bits() })
        })
        .expect("lookup");
    hits.map(|h| h.expect("hit")).collect()
}

fn options(id: &str, kind: MemoryKind, title: &str, body: &str, tags: &str) -> RecordOptions {
    RecordOptions {
        id: Some(id.to_string()),
        kind,
        title: title.to_string(),
        body: body.to_string(),
        tags: Some(tags.to_string()),
        supersedes_id: None,
        session_id: None,
        embedding: None,
    }
}

fn same_tables(a: &MemoryStore, b: &MemoryStore) {
    let x = a.list_memories(None, None, 1000);
    let y = b.list_memories(None, None, 1000);
    assert_eq!(format!("{:?}", x), format!("{:?}", y));
    for m in &x {
        let r = a.get_memory_relations(&m.id);
        let s = b.get_memory_relations(&m.id);
        assert_eq!(format!("{:?}", r), format!("{:?}", s));
    }
    assert_eq!(format!("{:?}", a.stats()), format!("{:?}", b.stats()));
}

#[test]
fn test_database_initialization_pragmas() {
    let conn = open_in_memory();
    let journal_mode: String = conn
        .query_row("PRAGMA journal_mode;", [], |r| r.get(0))
        .expect("journal_mode");
    assert!(!journal_mode.is_empty());

    let fk: i32 = conn
        .query_row("PRAGMA foreign_keys;", [], |r| r.get(0))
        .expect("foreign_keys");
    assert_eq!(fk, 1);

    let mut probe = conn.prepare(SCHEMA_PROBE_SQL).expect("probe");
    assert!(probe.exists([]).expect("probe"));
}

#[test]
fn test_record_and_atomic_supersession() {
    let conn = open_in_memory();
    let mut store = load(&conn);

    let mut first = options(
        "DEC-001",
        MemoryKind::Decision,
        "Use Flat Markdown Memory",
        "Store context in a single NOTES.md file.",
        "markdown flat storage",
    );
    first.session_id = Some("sess-1".to_string());
    let dec1 = store.record_memory(first, &now(&conn)).expect("record dec1");
    assert_eq!(dec1.id, "DEC-001");
    assert_eq!(dec1.status, MemoryStatus::Active);
    save(&conn, &mut store);

    let mut store = load(&conn);
    let mut second = options(
        "DEC-002",
        MemoryKind::Decision,
        "Migrate to SQLite WAL + FTS5 Relational DAG",
        "Flat markdown leads to context bloat and zombie context. Use SQLite DAG instead.",
        "sqlite wal fts5 dag",
    );
    second.supersedes_id = Some("DEC-001".to_string());
    second.session_id = Some("sess-2".to_string());
    let dec2 = store.record_memory(second, &now(&conn)).expect("record dec2");
    assert_eq!(dec2.id, "DEC-002");
    assert_eq!(dec2.status, MemoryStatus::Active);
    save(&conn, &mut store);

    let store = load(&conn);
    let (old_mem, _) = store.get_memory("DEC-001").expect("found");
    assert_eq!(old_mem.status, MemoryStatus::Superseded);

    let (new_mem, rels) = store.get_memory("DEC-002").expect("found");
    assert_eq!(new_mem.status, MemoryStatus::Active);
    assert_eq!(rels.len(), 1);
    assert_eq!(rels[0].relation_type, RelationType::Supersedes);
    assert_eq!(rels[0].target_id, "DEC-001");
    assert_eq!(rels[0].target_status, Some(MemoryStatus::Superseded));
}

#[test]
fn test_fts5_search_and_1_hop_dag_expansion() {
    let conn = open_in_memory();
    let mut store = load(&conn);
    let at = now(&conn);
    store
        .record_memory(
            options(
                "INV-001",
                MemoryKind::Invariant,
                "Zero Daemon Requirement",
                "Never run external background services; everything must be embedded in-process.",
                "daemon zero-service embedded",
            ),
            &at,
        )
        .expect("inv");
    store
        .record_memory(
            options(
                "DEC-010",
                MemoryKind::Decision,
                "Concurrency with SQLite WAL Mode",
                "Configure PRAGMA journal_mode = WAL and busy_timeout = 5000 to allow multi-reader concurrency.",
                "sqlite wal concurrency timeout",
            ),
            &at,
        )
        .expect("dec");
    store
        .record_memory(
            options(
                "TSK-050",
                MemoryKind::Task,
                "Benchmark Multi-Process Lock Contention",
                "Run 100 concurrent subagents hitting BEGIN IMMEDIATE to test sqlite lock handling.",
                "benchmark lock wal contention",
            ),
            &at,
        )
        .expect("tsk");
    store.link_entities("DEC-010", "INV-001", RelationType::DependsOn, &at).expect("link1");
    store.link_entities("DEC-010", "TSK-050", RelationType::Blocks, &at).expect("link2");
    save(&conn, &mut store);

    let opts = SearchOptions {
        query: "concurrency wal".to_string(),
        kind: None,
        include_resolved: false,
        limit: 5,
    };
    let query = index_query(&opts).expect("terms");
    assert_eq!(query, "\"concurrency\"* \"wal\"*");
    let hits = text_hits(&conn, &query);
    let results = load(&conn).search_memory(opts, &hits);

    assert!(!results.is_empty());
    let dec_res = results.iter().find(|r| r.memory.id == "DEC-010").expect("DEC-010 found");
    assert!(f64::from_bits(dec_res.rank) < 0.0);
    assert_eq!(dec_res.relations.len(), 2);

    let dep = dec_res.relations.iter().find(|r| r.target_id == "INV-001").expect("dep found");
    assert_eq!(dep.relation_type, RelationType::DependsOn);

    let blk = dec_res.relations.iter().find(|r| r.target_id == "TSK-050").expect("blk found");
    assert_eq!(blk.relation_type, RelationType::Blocks);
}

#[test]
fn test_session_consolidation_and_ephemeral_purge() {
    let conn = open_in_memory();
    let mut store = load(&conn);
    let mut note = options(
        "EPH-001",
        MemoryKind::Ephemeral,
        "Temporary test port 8080 timeout",
        "Connection failed during test run on port 8080.",
        "test port ephemeral",
    );
    note.session_id = Some("session-abc".to_string());
    store.record_memory(note, &now(&conn)).expect("record ephemeral");
    save(&conn, &mut store);

    let mut store = load(&conn);
    let eph = store.get_memory("EPH-001").expect("found");
    assert_eq!(eph.0.status, MemoryStatus::Ephemeral);

    let res = store
        .consolidate_session(
            "session-abc",
            vec![SessionLearning {
                title: "Always use dynamic port allocation for mock servers".to_string(),
                body: "Hardcoded ports cause flaky parallel test runs.".to_string(),
                tags: Some("testing port flakiness".to_string()),
                kind: MemoryKind::Invariant,
            }],
            true,
            &now(&conn),
        )
        .expect("consolidate");
    assert_eq!(res.learnings_recorded, 1);
    assert_eq!(res.ephemeral_purged, 1);
    save(&conn, &mut store);

    let store = load(&conn);
    assert!(store.get_memory("EPH-001").is_none());

    let (learning, _) = store.get_memory(&res.recorded_ids[0]).expect("found");
    assert_eq!(learning.status, MemoryStatus::Active);
    assert_eq!(learning.kind, MemoryKind::Invariant);
}

fn tool_request(id: u64, name: &str, arguments: Json) -> JsonRpcRequest {
    JsonRpcRequest {
        jsonrpc: "2.0".to_string(),
        id: Some(Json::Number(Number::Natural(id))),
        method: "tools/call".to_string(),
        params: Some(Json::object().with("name", Json::text(name)).with("arguments", arguments)),
    }
}

fn reply_text(result: &Json) -> String {
    let parts = result.array_at("content").expect("content");
    parts[0].text_at("text").expect("text").to_string()
}

#[test]
fn test_mcp_tool_execution() {
    let conn = open_in_memory();

    let record_req = tool_request(
        1,
        "record_memory",
        Json::object()
            .with("kind", Json::text("decision"))
            .with("title", Json::text("Adopt SQLite WAL + FTS5"))
            .with("body", Json::text("Replaces flat NOTES.md with a relational DAG."))
            .with("tags", Json::text("sqlite wal fts5 dag"))
            .with("id", Json::text("DEC-TEST-001")),
    );
    let mut mcp = McpServer::new(load(&conn));
    let resp = mcp.handle_request(record_req, &Ok(vec![]), &now(&conn)).expect("response");
    save(&conn, &mut mcp.store);
    assert!(resp.error.is_none());
    let text = reply_text(&resp.result.unwrap());
    assert!(text.contains("Successfully recorded memory [DEC-TEST-001]"));

    let search_req =
        tool_request(2, "search_memory", Json::object().with("query", Json::text("sqlite wal")));
    let hits = match search_req.lookup() {
        Lookup::Text { query } => text_hits(&conn, &query),
        other => panic!("{:?}", other),
    };
    let mut mcp = McpServer::new(load(&conn));
    let resp2 = mcp.handle_request(search_req, &Ok(hits), &now(&conn)).expect("response");
    let text2 = reply_text(&resp2.result.unwrap());
    assert!(text2.contains("DEC-TEST-001"));
}

#[test]
fn statements_make_in_the_database_what_the_store_has() {
    let conn = open_in_memory();
    let mut store = load(&conn);
    let at = "2026-01-02 03:04:05";
    for (id, kind) in [
        ("TSK-1", MemoryKind::Task),
        ("BLK-1", MemoryKind::Blocker),
        ("EPH-1", MemoryKind::Ephemeral),
        ("DEC-1", MemoryKind::Decision),
    ] {
        let mut o = options(id, kind, "title", "it's a \"body\"", "tags");
        o.session_id = Some("s".to_string());
        store.record_memory(o, at).expect("record");
    }
    store.link_entities("BLK-1", "TSK-1", RelationType::Blocks, at).expect("link");
    store.link_entities("EPH-1", "TSK-1", RelationType::References, at).expect("link");
    store.link_entities("TSK-1", "DEC-1", RelationType::DependsOn, at).expect("link");
    store
        .link_entities("BLK-1", "TSK-1", RelationType::Blocks, "2026-01-02 03:04:06")
        .expect("link again");
    store.resolve_memory("BLK-1", Some("done"), "2026-01-02 03:04:07").expect("resolve");
    let mut o = options("DEC-2", MemoryKind::Decision, "new", "", "");
    o.tags = None;
    o.supersedes_id = Some("DEC-1".to_string());
    store.record_memory(o, "2026-01-02 03:04:08").expect("supersede");
    save(&conn, &mut store);
    same_tables(&store, &load(&conn));

    store.consolidate_session("s", vec![], false, "2026-01-02 03:04:09").expect("archive");
    save(&conn, &mut store);
    same_tables(&store, &load(&conn));

    store.consolidate_session("s", vec![], true, "2026-01-02 03:04:10").expect("purge");
    save(&conn, &mut store);
    same_tables(&store, &load(&conn));
    assert!(store.get_memory("EPH-1").is_none());
    assert_eq!(store.stats().total_relations, 3);
}

#[test]
fn expired_notes_are_swept() {
    let conn = open_in_memory();
    let mut store = load(&conn);
    store
        .record_memory(
            options("EPH-OLD", MemoryKind::Ephemeral, "old", "", ""),
            "2020-01-01 00:00:00",
        )
        .expect("old");
    store
        .record_memory(options("EPH-NEW", MemoryKind::Ephemeral, "new", "", ""), &now(&conn))
        .expect("new");
    store
        .record_memory(options("TSK-OLD", MemoryKind::Task, "task", "", ""), "2020-01-01 00:00:00")
        .expect("task");
    let modifier = memdag::db::cutoff_modifier(memdag::db::ttl_seconds(None));
    assert_eq!(modifier, "-86400 seconds");
    let cutoff: String = conn.query_row(CUTOFF_SQL, [modifier], |r| r.get(0)).expect("cutoff");
    assert_eq!(store.purge_expired_ephemeral(&cutoff), 1);
    save(&conn, &mut store);
    let store = load(&conn);
    assert!(store.get_memory("EPH-OLD").is_none());
    assert!(store.get_memory("EPH-NEW").is_some());
    assert!(store.get_memory("TSK-OLD").is_some());
}

#[test]
fn index_follows_resolved_bodies() {
    let conn = open_in_memory();
    let mut store = load(&conn);
    store
        .record_memory(options("TSK-1", MemoryKind::Task, "alpha", "beta", "gamma"), &now(&conn))
        .expect("task");
    save(&conn, &mut store);
    assert_eq!(text_hits(&conn, "\"zeppelin\"*").len(), 0);
    store.resolve_memory("TSK-1", Some("zeppelins"), &now(&conn)).expect("resolve");
    save(&conn, &mut store);
    let hits = text_hits(&conn, "\"zeppelin\"*");
    assert_eq!(hits.len(), 1);
    let mut opts = SearchOptions::default();
    opts.query = "zeppelin".to_string();
    assert_eq!(store.search_memory(opts.clone(), &hits).len(), 0);
    opts.include_resolved = true;
    assert_eq!(store.search_memory(opts, &hits).len(), 1);
}

#[test]
fn test_sqlite_vec_extension_operations() {
    let conn = open_in_memory();
    conn.execute_batch("CREATE TABLE memories_vec (id TEXT PRIMARY KEY, embedding TEXT);")
        .expect("table");
    let mut store = load(&conn);
    let mut o = options(
        "VEC-001",
        MemoryKind::Decision,
        "Vector Memory Test",
        "Testing sqlite-vec embedded integration.",
        "vector test",
    );
    o.embedding = Some(vec![0.1f32.to_string(); 384]);
    let mem = store.record_memory(o, &now(&conn)).expect("record with embedding");
    assert_eq!(mem.id, "VEC-001");
    save(&conn, &mut store);
    let count: i64 = conn
        .query_row("SELECT count(*) FROM memories_vec WHERE id = 'VEC-001'", [], |r| r.get(0))
        .expect("count vec");
    assert_eq!(count, 1);
    let text: String = conn
        .query_row("SELECT embedding FROM memories_vec WHERE id = 'VEC-001'", [], |r| r.get(0))
        .expect("embedding");
    assert_eq!(text, format!("[{}]", vec!["0.1"; 384].join(",")));
}

use memdag::models::{
    EdgeDirection, MemoryKind, MemorySearchResult, MemoryStatus, RelatedEntity, RelationType,
};
use memdag::search::{clamp_limit, index_query, Hit};
use memdag::store::{
    format_relations, format_search_results_for_llm, sanitize_fts5_query, MemoryStore,
    RecordOptions, SearchOptions,
};

fn record(store: &mut MemoryStore, id: &str, kind: MemoryKind, at: &str) {
    let options = RecordOptions {
        id: Some(id.to_string()),
        kind,
        title: format!("title of {}", id),
        body: format!("  body of {}\n", id),
        tags: None,
        supersedes_id: None,
        session_id: None,
        embedding: None,
    };
    match store.record_memory(options, at) {
        Ok(_) => {}
        Err(e) => panic!("{}", e.message()),
    }
}

fn hit(id: &str, score: u64) -> Hit {
    Hit { id: id.to_string(), score }
}

fn found(results: &[MemorySearchResult]) -> Vec<&str> {
    results.iter().map(|r| r.memory.id.as_str()).collect()
}

fn search(query: &str, kind: Option<MemoryKind>, include_resolved: bool, limit: usize) -> SearchOptions {
    SearchOptions { query: query.to_string(), kind, include_resolved, limit }
}

#[test]
fn queries_become_quoted_prefixes() {
    assert_eq!(sanitize_fts5_query("concurrency wal"), "\"concurrency\"* \"wal\"*");
    assert_eq!(sanitize_fts5_query("  sqlite\tWAL\u{2003}mode\n"), "\"sqlite\"* \"WAL\"* \"mode\"*");
    assert_eq!(sanitize_fts5_query("E0308: fn(x) -> y_z"), "\"E0308\"* \"fnx\"* \"-\"* \"y_z\"*");
    assert_eq!(sanitize_fts5_query("a\"b OR \"c\" *"), "\"ab\"* \"OR\"* \"c\"*");
    assert_eq!(sanitize_fts5_query("größe № 7½"), "\"größe\"* \"7½\"*");
    assert_eq!(sanitize_fts5_query(""), "");
    assert_eq!(sanitize_fts5_query(" \n "), "");
    assert_eq!(sanitize_fts5_query("!? ... \"\""), "");
}

#[test]
fn query_is_empty_where_no_character_is_kept() {
    assert_eq!(sanitize_fts5_query("\u{2003}\u{3000}\u{85}\u{a0}"), "");
    assert_eq!(sanitize_fts5_query("(\u{2003}é"), "\"é\"*");
    assert_eq!(sanitize_fts5_query("→ ∑ …"), "");
    assert_eq!(sanitize_fts5_query("→_"), "\"_\"*");
}

#[test]
fn index_is_asked_only_where_there_are_terms() {
    assert_eq!(index_query(&search("a b", None, false, 1)), Some("\"a\"* \"b\"*".to_string()));
    assert_eq!(index_query(&search(" ?! ", None, false, 1)), None);
    assert_eq!(index_query(&SearchOptions::default()), None);
}

#[test]
fn default_search_is_for_ten_active_memories() {
    let o = SearchOptions::default();
    assert_eq!(o.query, "");
    assert_eq!(o.kind, None);
    assert!(!o.include_resolved);
    assert_eq!(o.limit, 10);
}

#[test]
fn limits_are_brought_into_range() {
    assert_eq!(clamp_limit(0), 1);
    assert_eq!(clamp_limit(1), 1);
    assert_eq!(clamp_limit(57), 57);
    assert_eq!(clamp_limit(100), 100);
    assert_eq!(clamp_limit(101), 100);
}

#[test]
fn hits_keep_their_order_and_score() {
    let mut store = MemoryStore::new();
    record(&mut store, "A", MemoryKind::Task, "t1");
    record(&mut store, "B", MemoryKind::Decision, "t2");
    record(&mut store, "C", MemoryKind::Task, "t3");
    store.resolve_memory("C", None, "t4").expect("resolve");
    let hits = vec![hit("C", 5), hit("B", 6), hit("gone", 7), hit("A", 8)];
    let r = store.search_memory(search("x", None, false, 10), &hits);
    assert_eq!(found(&r), vec!["B", "A"]);
    assert_eq!(r[0].rank, 6);
    assert_eq!(r[1].rank, 8);
    let r = store.search_memory(search("x", None, true, 10), &hits);
    assert_eq!(found(&r), vec!["C", "B", "A"]);
    let r = store.search_memory(search("x", Some(MemoryKind::Task), false, 10), &hits);
    assert_eq!(found(&r), vec!["A"]);
    let r = store.search_memory(search("x", None, true, 2), &hits);
    assert_eq!(found(&r), vec!["C", "B"]);
    let r = store.search_memory(search("x", None, true, 0), &hits);
    assert_eq!(found(&r), vec!["C"]);
    assert!(store.search_memory(search("x", None, true, 10), &vec![]).is_empty());
}

#[test]
fn empty_query_gives_the_latest() {
    let mut store = MemoryStore::new();
    record(&mut store, "A", MemoryKind::Task, "t1");
    record(&mut store, "B", MemoryKind::Decision, "t2");
    record(&mut store, "C", MemoryKind::Task, "t3");
    store.link_entities("A", "B", RelationType::DependsOn, "t3").expect("link");
    store.resolve_memory("C", None, "t4").expect("resolve");
    let r = store.search_memory(search("", None, false, 10), &vec![hit("C", 1)]);
    assert_eq!(found(&r), vec!["B", "A"]);
    assert_eq!(r[0].rank, 0);
    assert_eq!(r[0].relations.len(), 1);
    assert_eq!(r[0].relations[0].direction, EdgeDirection::Incoming);
    let r = store.search_memory(search("?", None, true, 2), &vec![]);
    assert_eq!(found(&r), vec!["C", "B"]);
    assert!(store.search_memory(search("", None, true, 0), &vec![]).is_empty());
}

#[test]
fn superseded_memories_are_not_found() {
    let mut store = MemoryStore::new();
    record(&mut store, "A", MemoryKind::Decision, "t1");
    let options = RecordOptions {
        id: Some("B".to_string()),
        kind: MemoryKind::Decision,
        title: "new".to_string(),
        body: String::new(),
        tags: None,
        supersedes_id: Some("A".to_string()),
        session_id: None,
        embedding: None,
    };
    store.record_memory(options, "t2").expect("record");
    let hits = vec![hit("A", 1), hit("B", 2)];
    assert_eq!(found(&store.search_memory(search("x", None, false, 10), &hits)), vec!["B"]);
    assert_eq!(found(&store.search_memory(search("", None, false, 10), &hits)), vec!["B"]);
}

#[test]
fn similar_memories_come_with_distance_and_neighbours() {
    let mut store = MemoryStore::new();
    record(&mut store, "A", MemoryKind::Task, "t1");
    record(&mut store, "B", MemoryKind::Decision, "t2");
    store.link_entities("A", "B", RelationType::DependsOn, "t3").expect("link");
    store.resolve_memory("B", None, "t4").expect("resolve");
    let near = 0.25f64.to_bits();
    let hits = vec![hit("B", near), hit("gone", 1), hit("A", 2)];
    let r = store.search_vector(&hits, 10);
    assert_eq!(r.len(), 2);
    assert_eq!(r[0].0.id, "B");
    assert_eq!(r[0].1, near);
    assert_eq!(r[0].2[0].target_id, "A");
    assert_eq!(r[1].0.id, "A");
    assert_eq!(r[1].2[0].target_status, Some(MemoryStatus::Resolved));
    assert_eq!(store.search_vector(&hits, 0).len(), 1);
}

#[test]
fn results_are_told_as_a_document() {
    let mut store = MemoryStore::new();
    let options = RecordOptions {
        id: Some("DEC-2026-001".to_string()),
        kind: MemoryKind::Decision,
        title: "Adopt SQLite WAL + FTS5".to_string(),
        body: "Using SQLite in WAL mode provides safe concurrent multi-reader access without daemons.".to_string(),
        tags: Some("sqlite wal concurrency architecture".to_string()),
        supersedes_id: None,
        session_id: None,
        embedding: None,
    };
    store.record_memory(options, "t1").expect("record");
    record(&mut store, "TSK-002", MemoryKind::Task, "t2");
    store.link_entities("TSK-002", "DEC-2026-001", RelationType::DependsOn, "t3").expect("link");
    let hits = vec![hit("DEC-2026-001", 1)];
    let r = store.search_memory(search("concurrency wal", None, false, 10), &hits);
    assert_eq!(
        format_search_results_for_llm(&r),
        "Found 1 relevant active memory/DAG entries:\n\n\
         ### 1. [DEC-2026-001] Adopt SQLite WAL + FTS5 (kind: decision, status: active)\n\
         - **Tags**: sqlite wal concurrency architecture\n\
         - **Body**: Using SQLite in WAL mode provides safe concurrent multi-reader access without daemons.\n\
         - **Relations (1-Hop DAG)**:\n  - `depended_on_by` ◄ [TSK-002] title of TSK-002 (active)\n\n"
    );
    let r = store.search_memory(search("", Some(MemoryKind::Task), false, 10), &vec![]);
    assert_eq!(
        format_search_results_for_llm(&r),
        "Found 1 relevant active memory/DAG entries:\n\n\
         ### 1. [TSK-002] title of TSK-002 (kind: task, status: active)\n\
         - **Body**: body of TSK-002\n\
         - **Relations (1-Hop DAG)**:\n  - `depends_on` ➔ [DEC-2026-001] Adopt SQLite WAL + FTS5 (active)\n\n"
    );
    assert_eq!(
        format_search_results_for_llm(&vec![]),
        "No relevant memories found matching the query."
    );
}

#[test]
fn many_results_are_numbered() {
    let mut store = MemoryStore::new();
    for i in 0..12 {
        record(&mut store, &format!("M{}", i), MemoryKind::Task, "t");
    }
    let r = store.search_memory(search("", None, false, 50), &vec![]);
    let text = format_search_results_for_llm(&r);
    assert!(text.starts_with("Found 12 relevant active memory/DAG entries:\n\n### 1. [M0]"));
    assert!(text.contains("\n\n### 10. [M9]"));
    assert!(text.contains("\n\n### 12. [M11]"));
}

#[test]
fn blank_tags_are_left_out() {
    let mut store = MemoryStore::new();
    let options = RecordOptions {
        id: Some("A".to_string()),
        kind: MemoryKind::Invariant,
        title: "t".to_string(),
        body: " ".to_string(),
        tags: Some("  ".to_string()),
        supersedes_id: None,
        session_id: None,
        embedding: None,
    };
    store.record_memory(options, "t1").expect("record");
    let r = store.search_memory(search("", None, false, 10), &vec![]);
    assert_eq!(
        format_search_results_for_llm(&r),
        "Found 1 relevant active memory/DAG entries:\n\n### 1. [A] t (kind: invariant, status: active)\n- **Body**: \n\n"
    );
}

#[test]
fn unknown_neighbours_are_shown_as_such() {
    let unknown = RelatedEntity {
        relation_type: RelationType::Blocks,
        target_id: "X".to_string(),
        target_title: None,
        target_kind: None,
        target_status: None,
        direction: EdgeDirection::Incoming,
    };
    let mut known = unknown.clone();
    known.direction = EdgeDirection::Outgoing;
    known.target_title = Some("T".to_string());
    known.target_status = Some(MemoryStatus::Resolved);
    assert_eq!(
        format_relations(&vec![unknown, known]),
        "  - `blocked_by` ◄ [X] Unknown (unknown)\n  - `blocks` ➔ [X] T (resolved)\n"
    );
    assert_eq!(format_relations(&vec![]), "");
}

use memdag::models::{
    EdgeDirection, ExportData, Memory, MemoryKind, MemoryRelation, MemoryStatus, RelationType,
    SessionLearning,
};
use memdag::store::{MemoryStore, RecordOptions};

const T0: &str = "2026-03-01 10:00:00";
const T1: &str = "2026-03-01 10:00:01";
const T2: &str = "2026-03-01 10:00:02";

fn options(id: &str, kind: MemoryKind) -> RecordOptions {
    RecordOptions {
        id: Some(id.to_string()),
        kind,
        title: format!("title of {}", id),
        body: format!("body of {}", id),
        tags: None,
        supersedes_id: None,
        session_id: None,
        embedding: None,
    }
}

fn record(store: &mut MemoryStore, id: &str, kind: MemoryKind, at: &str) {
    match store.record_memory(options(id, kind), at) {
        Ok(_) => {}
        Err(e) => panic!("{}", e.message()),
    }
}

fn ids(list: &[Memory]) -> Vec<&str> {
    list.iter().map(|m| m.id.as_str()).collect()
}

fn snapshot(store: &MemoryStore) -> String {
    format!("{:?} {:?}", store.list_memories(None, None, 1000), store.stats())
}

fn learning(title: &str, kind: MemoryKind) -> SessionLearning {
    SessionLearning { title: title.to_string(), body: "b".to_string(), tags: None, kind }
}

#[test]
fn new_store_is_empty() {
    let mut store = MemoryStore::new();
    assert!(store.list_memories(None, None, 10).is_empty());
    assert!(store.get_memory("X").is_none());
    assert!(store.take_changes().is_empty());
    let stats = store.stats();
    assert_eq!(stats.total_memories, 0);
    assert!(stats.relations_by_type.is_empty());
}

#[test]
fn recorded_memory_is_read_back() {
    let mut store = MemoryStore::new();
    let mut o = options("DEC-1", MemoryKind::Decision);
    o.tags = Some("a b".to_string());
    o.session_id = Some("s".to_string());
    let m = store.record_memory(o, T0).expect("record");
    let (read, relations) = store.get_memory("DEC-1").expect("found");
    assert_eq!(format!("{:?}", m), format!("{:?}", read));
    assert!(relations.is_empty());
    assert_eq!(read.title, "title of DEC-1");
    assert_eq!(read.body, "body of DEC-1");
    assert_eq!(read.tags.as_deref(), Some("a b"));
    assert_eq!(read.session_id.as_deref(), Some("s"));
    assert_eq!(read.created_at, T0);
    assert_eq!(read.updated_at, T0);
    assert!(store.contains("DEC-1"));
    assert!(!store.contains("dec-1"));
}

#[test]
fn only_ephemeral_memories_start_ephemeral() {
    let mut store = MemoryStore::new();
    for (id, kind, status) in [
        ("a", MemoryKind::Decision, MemoryStatus::Active),
        ("b", MemoryKind::Task, MemoryStatus::Active),
        ("c", MemoryKind::Invariant, MemoryStatus::Active),
        ("d", MemoryKind::Blocker, MemoryStatus::Active),
        ("e", MemoryKind::Ephemeral, MemoryStatus::Ephemeral),
    ] {
        assert_eq!(store.record_memory(options(id, kind), T0).expect("record").status, status);
    }
}

#[test]
fn identifiers_are_made_of_the_prefix_and_eight_digits() {
    let mut store = MemoryStore::new();
    let mut seen: Vec<String> = Vec::new();
    for _ in 0..20 {
        let mut o = options("", MemoryKind::Blocker);
        o.id = None;
        let m = store.record_memory(o, T0).expect("record");
        assert_eq!(m.id.len(), 12);
        assert!(m.id.starts_with("BLK-"));
        assert!(m.id[4..].chars().all(|c| c.is_ascii_digit() || ('a'..='f').contains(&c)));
        assert!(!seen.contains(&m.id));
        seen.push(m.id);
    }
}

#[test]
fn taken_identifier_is_refused() {
    let mut store = MemoryStore::new();
    record(&mut store, "DEC-1", MemoryKind::Decision, T0);
    let before = snapshot(&store);
    let e = store.record_memory(options("DEC-1", MemoryKind::Task), T1).expect_err("taken");
    assert_eq!(e.message(), "Failed to insert memory record");
    let mut o = options("DEC-1", MemoryKind::Task);
    o.supersedes_id = Some("DEC-1".to_string());
    let e = store.record_memory(o, T1).expect_err("taken");
    assert_eq!(e.message(), "Failed to insert memory record");
    assert_eq!(snapshot(&store), before);
    assert_eq!(store.take_changes().len(), 1);
}

#[test]
fn missing_superseded_memory_is_refused() {
    let mut store = MemoryStore::new();
    let mut o = options("DEC-2", MemoryKind::Decision);
    o.supersedes_id = Some("DEC-1".to_string());
    let e = store.record_memory(o, T0).expect_err("missing");
    assert_eq!(e.message(), "Target supersedes_id 'DEC-1' does not exist");
    assert!(store.get_memory("DEC-2").is_none());
    assert!(store.take_changes().is_empty());
}

#[test]
fn superseding_leaves_the_rest_alone() {
    let mut store = MemoryStore::new();
    record(&mut store, "A", MemoryKind::Decision, T0);
    record(&mut store, "B", MemoryKind::Decision, T0);
    store.link_entities("B", "A", RelationType::References, T0).expect("link");
    let other = format!("{:?}", store.get_memory("B").expect("found").0);
    let mut o = options("C", MemoryKind::Ephemeral);
    o.supersedes_id = Some("A".to_string());
    let c = store.record_memory(o, T1).expect("record");
    assert_eq!(c.status, MemoryStatus::Ephemeral);
    let (a, rels) = store.get_memory("A").expect("found");
    assert_eq!(a.status, MemoryStatus::Superseded);
    assert_eq!(a.created_at, T0);
    assert_eq!(a.updated_at, T1);
    assert_eq!(a.body, "body of A");
    assert_eq!(rels.len(), 2);
    assert_eq!(rels[1].direction, EdgeDirection::Incoming);
    assert_eq!(rels[1].relation_type, RelationType::Supersedes);
    assert_eq!(rels[1].target_id, "C");
    let (b, b_rels) = store.get_memory("B").expect("found");
    assert_eq!(format!("{:?}", b), other);
    assert_eq!(b_rels.len(), 1);
    assert_eq!(b_rels[0].target_status, Some(MemoryStatus::Superseded));
}

#[test]
fn embeddings_are_journaled_as_arrays() {
    let mut store = MemoryStore::new();
    let mut o = options("VEC-001", MemoryKind::Decision);
    let mut parts = vec!["0.1".to_string(); 384];
    parts[0] = "-2".to_string();
    let text = format!("[{}]", parts.join(","));
    o.embedding = Some(parts);
    store.record_memory(o, T0).expect("record");
    let changes = store.take_changes();
    assert_eq!(changes.len(), 2);
    let statement = changes[1].statement();
    assert_eq!(
        statement.sql,
        "INSERT OR REPLACE INTO memories_vec (id, embedding) VALUES (?1, ?2)"
    );
    assert_eq!(
        statement.params,
        vec![Some("VEC-001".to_string()), Some(text)]
    );
}

#[test]
fn embeddings_have_one_length() {
    let mut store = MemoryStore::new();
    record(&mut store, "A", MemoryKind::Decision, T0);
    store.take_changes();
    let before = snapshot(&store);
    for n in [0, 1, 3, 383, 385] {
        let mut o = options("VEC-002", MemoryKind::Decision);
        o.supersedes_id = Some("A".to_string());
        o.embedding = Some(vec!["1".to_string(); n]);
        let e = store.record_memory(o, T1).expect_err("length");
        assert_eq!(e.message(), "Failed to insert vector embedding into memories_vec");
    }
    assert_eq!(snapshot(&store), before);
    assert!(store.take_changes().is_empty());
}

#[test]
fn links_need_both_ends() {
    let mut store = MemoryStore::new();
    record(&mut store, "A", MemoryKind::Task, T0);
    let e = store.link_entities("X", "A", RelationType::Blocks, T0).expect_err("source");
    assert_eq!(e.message(), "Source entity 'X' not found");
    let e = store.link_entities("A", "Y", RelationType::Blocks, T0).expect_err("target");
    assert_eq!(e.message(), "Target entity 'Y' not found");
    let e = store.link_entities("X", "Y", RelationType::Blocks, T0).expect_err("both");
    assert_eq!(e.message(), "Source entity 'X' not found");
    assert_eq!(store.stats().total_relations, 0);
}

#[test]
fn linking_again_leaves_one_edge() {
    let mut store = MemoryStore::new();
    record(&mut store, "A", MemoryKind::Task, T0);
    record(&mut store, "B", MemoryKind::Task, T0);
    store.link_entities("A", "B", RelationType::Blocks, T0).expect("link");
    store.link_entities("A", "B", RelationType::Blocks, T1).expect("again");
    assert_eq!(store.get_memory_relations("A").len(), 1);
    store.link_entities("A", "B", RelationType::References, T1).expect("other type");
    store.link_entities("B", "A", RelationType::Blocks, T1).expect("other way");
    assert_eq!(store.get_memory_relations("A").len(), 3);
    let stats = store.stats();
    assert_eq!(stats.total_relations, 3);
    assert_eq!(
        stats.relations_by_type,
        vec![("blocks".to_string(), 2), ("references".to_string(), 1)]
    );
}

#[test]
fn supersedes_links_deprecate_the_target() {
    let mut store = MemoryStore::new();
    record(&mut store, "A", MemoryKind::Decision, T0);
    record(&mut store, "B", MemoryKind::Decision, T0);
    store.take_changes();
    store.link_entities("B", "A", RelationType::Supersedes, T1).expect("link");
    assert_eq!(store.take_changes().len(), 2);
    let (a, rels) = store.get_memory("A").expect("found");
    assert_eq!(a.status, MemoryStatus::Superseded);
    assert_eq!(a.updated_at, T1);
    assert_eq!(rels.len(), 1);
    let (b, _) = store.get_memory("B").expect("found");
    assert_eq!(b.status, MemoryStatus::Active);
    assert_eq!(b.updated_at, T0);

    store.link_entities("B", "A", RelationType::Supersedes, T2).expect("again");
    assert_eq!(store.take_changes().len(), 1);
    let (a, rels) = store.get_memory("A").expect("found");
    assert_eq!(a.updated_at, T1);
    assert_eq!(rels.len(), 1);
    assert_eq!(store.stats().superseded_memories, 1);
}

#[test]
fn memory_that_supersedes_itself_is_superseded() {
    let mut store = MemoryStore::new();
    record(&mut store, "A", MemoryKind::Task, T0);
    store.link_entities("A", "A", RelationType::Supersedes, T1).expect("link");
    let (a, rels) = store.get_memory("A").expect("found");
    assert_eq!(a.status, MemoryStatus::Superseded);
    assert_eq!(rels.len(), 2);
    assert!(store.list_ready(10).is_empty());
}

#[test]
fn other_links_change_no_memory() {
    let mut store = MemoryStore::new();
    record(&mut store, "A", MemoryKind::Task, T0);
    record(&mut store, "B", MemoryKind::Task, T0);
    let before = format!("{:?}", store.list_memories(None, None, 10));
    for relation in [RelationType::DependsOn, RelationType::Blocks, RelationType::References] {
        store.link_entities("A", "B", relation, T1).expect("link");
    }
    assert_eq!(format!("{:?}", store.list_memories(None, None, 10)), before);
}

#[test]
fn edges_are_seen_from_both_ends() {
    let mut store = MemoryStore::new();
    record(&mut store, "A", MemoryKind::Task, T0);
    record(&mut store, "B", MemoryKind::Invariant, T0);
    store.link_entities("A", "B", RelationType::DependsOn, T0).expect("link");
    let out = store.get_memory_relations("A");
    assert_eq!(out.len(), 1);
    assert_eq!(out[0].direction, EdgeDirection::Outgoing);
    assert_eq!(out[0].target_id, "B");
    assert_eq!(out[0].target_title.as_deref(), Some("title of B"));
    assert_eq!(out[0].target_kind, Some(MemoryKind::Invariant));
    assert_eq!(out[0].target_status, Some(MemoryStatus::Active));
    let back = store.get_memory_relations("B");
    assert_eq!(back.len(), 1);
    assert_eq!(back[0].direction, EdgeDirection::Incoming);
    assert_eq!(back[0].target_id, "A");
    assert_eq!(back[0].relation_type, RelationType::DependsOn);
    store.link_entities("A", "A", RelationType::References, T0).expect("loop");
    assert_eq!(store.get_memory_relations("A").len(), 3);
    assert!(store.get_memory_relations("C").is_empty());
}

#[test]
fn resolving_adds_the_note() {
    let mut store = MemoryStore::new();
    record(&mut store, "T", MemoryKind::Task, T0);
    let m = store.resolve_memory("T", Some("shipped"), T1).expect("resolve");
    assert_eq!(m.status, MemoryStatus::Resolved);
    assert_eq!(m.body, "body of T\n\n[Resolved]: shipped");
    assert_eq!(m.updated_at, T1);
    assert_eq!(m.created_at, T0);
    let m = store.resolve_memory("T", None, T2).expect("again");
    assert_eq!(m.body, "body of T\n\n[Resolved]: shipped");
    assert_eq!(format!("{:?}", store.get_memory("T").expect("found").0), format!("{:?}", m));
    let e = store.resolve_memory("U", None, T2).expect_err("missing");
    assert_eq!(e.message(), "Memory 'U' not found");
}

#[test]
fn lists_go_from_the_latest_on() {
    let mut store = MemoryStore::new();
    record(&mut store, "a", MemoryKind::Task, T1);
    record(&mut store, "b", MemoryKind::Decision, T0);
    record(&mut store, "c", MemoryKind::Task, T2);
    record(&mut store, "d", MemoryKind::Task, T1);
    assert_eq!(ids(&store.list_memories(None, None, 10)), vec!["c", "a", "d", "b"]);
    assert_eq!(ids(&store.list_memories(None, None, 2)), vec!["c", "a"]);
    assert!(store.list_memories(None, None, 0).is_empty());
    let tasks = store.list_memories(Some(MemoryStatus::Active), Some(MemoryKind::Task), 10);
    assert_eq!(ids(&tasks), vec!["c", "a", "d"]);
    assert!(store.list_memories(Some(MemoryStatus::Resolved), None, 10).is_empty());
    store.resolve_memory("b", None, "2026-03-01 10:00:03").expect("resolve");
    assert_eq!(ids(&store.list_memories(None, None, 10)), vec!["b", "c", "a", "d"]);
    assert_eq!(ids(&store.list_memories(Some(MemoryStatus::Resolved), None, 10)), vec!["b"]);
}

#[test]
fn ready_work_is_active_and_unblocked() {
    let mut store = MemoryStore::new();
    record(&mut store, "TSK-100", MemoryKind::Task, T0);
    record(&mut store, "BLK-100", MemoryKind::Blocker, T1);
    record(&mut store, "DEC-100", MemoryKind::Decision, T2);
    store.link_entities("BLK-100", "TSK-100", RelationType::Blocks, T1).expect("link");
    assert_eq!(ids(&store.list_ready(20)), vec!["BLK-100"]);
    store.link_entities("DEC-100", "BLK-100", RelationType::DependsOn, T1).expect("link");
    assert_eq!(ids(&store.list_ready(20)), vec!["BLK-100"]);
    store
        .resolve_memory("BLK-100", Some("Added windows-latest to the release matrix."), T2)
        .expect("resolve");
    assert_eq!(ids(&store.list_ready(20)), vec!["TSK-100"]);
    store.link_entities("DEC-100", "TSK-100", RelationType::Blocks, T2).expect("link");
    assert!(store.list_ready(20).is_empty());
    let mut o = options("DEC-101", MemoryKind::Decision);
    o.supersedes_id = Some("DEC-100".to_string());
    store.record_memory(o, T2).expect("supersede");
    assert_eq!(ids(&store.list_ready(20)), vec!["TSK-100"]);
    assert!(store.list_ready(0).is_empty());
    store.resolve_memory("TSK-100", Some("Shipped in v0.2.0."), T2).expect("resolve");
    assert!(store.list_ready(20).is_empty());
}

#[test]
fn resolved_neighbours_are_still_shown() {
    let mut store = MemoryStore::new();
    record(&mut store, "A", MemoryKind::Task, T0);
    record(&mut store, "B", MemoryKind::Blocker, T0);
    record(&mut store, "C", MemoryKind::Blocker, T0);
    store.link_entities("B", "A", RelationType::Blocks, T0).expect("link");
    store.link_entities("C", "A", RelationType::Blocks, T0).expect("link");
    store.resolve_memory("B", None, T1).expect("resolve");
    let rels = store.get_memory_relations("A");
    assert_eq!(rels.len(), 2);
    assert_eq!(rels[0].target_id, "B");
    assert_eq!(rels[0].target_status, Some(MemoryStatus::Resolved));
    assert_eq!(rels[0].relation_type, RelationType::Blocks);
    assert_eq!(rels[1].target_status, Some(MemoryStatus::Active));
}

#[test]
fn counts_add_up() {
    let mut store = MemoryStore::new();
    record(&mut store, "a", MemoryKind::Task, T0);
    record(&mut store, "b", MemoryKind::Ephemeral, T0);
    record(&mut store, "c", MemoryKind::Decision, T0);
    let mut o = options("d", MemoryKind::Decision);
    o.supersedes_id = Some("c".to_string());
    store.record_memory(o, T1).expect("record");
    store.resolve_memory("a", None, T1).expect("resolve");
    store.link_entities("a", "b", RelationType::DependsOn, T1).expect("link");
    store.link_entities("d", "a", RelationType::References, T1).expect("link");
    let s = store.stats();
    assert_eq!(s.total_memories, 4);
    assert_eq!(s.active_memories, 1);
    assert_eq!(s.superseded_memories, 1);
    assert_eq!(s.resolved_memories, 1);
    assert_eq!(s.ephemeral_memories, 1);
    assert_eq!(s.total_relations, 3);
    assert_eq!(
        s.relations_by_type,
        vec![
            ("depends_on".to_string(), 1),
            ("references".to_string(), 1),
            ("supersedes".to_string(), 1)
        ]
    );
    assert_eq!(
        s.total_memories,
        s.active_memories + s.superseded_memories + s.resolved_memories + s.ephemeral_memories
    );
    assert_eq!(s.total_relations, s.relations_by_type.iter().map(|c| c.1).sum::<i64>());
}

fn noted(session: Option<&str>, id: &str, kind: MemoryKind) -> RecordOptions {
    let mut o = options(id, kind);
    o.session_id = session.map(str::to_string);
    o
}

#[test]
fn consolidation_purges_the_session_only() {
    let mut store = MemoryStore::new();
    store.record_memory(noted(Some("s"), "E1", MemoryKind::Ephemeral), T0).expect("record");
    store.record_memory(noted(Some("s"), "E2", MemoryKind::Ephemeral), T0).expect("record");
    store.record_memory(noted(Some("t"), "E3", MemoryKind::Ephemeral), T0).expect("record");
    store.record_memory(noted(None, "E4", MemoryKind::Ephemeral), T0).expect("record");
    store.record_memory(noted(Some("s"), "D1", MemoryKind::Decision), T0).expect("record");
    store.resolve_memory("E2", None, T0).expect("resolve");
    store.link_entities("E1", "D1", RelationType::References, T0).expect("link");
    store.link_entities("E3", "D1", RelationType::References, T0).expect("link");
    let res = store
        .consolidate_session(
            "s",
            vec![learning("kept", MemoryKind::Task), learning("note", MemoryKind::Ephemeral)],
            true,
            T1,
        )
        .expect("consolidate");
    assert_eq!(res.session_id, "s");
    assert_eq!(res.learnings_recorded, 2);
    assert_eq!(res.ephemeral_purged, 2);
    assert_eq!(res.ephemeral_archived, 0);
    assert_eq!(res.recorded_ids.len(), 2);
    assert!(res.recorded_ids[0].starts_with("TSK-"));
    assert!(res.recorded_ids[1].starts_with("EPH-"));
    assert!(store.get_memory("E1").is_none());
    assert!(store.get_memory("E2").is_none());
    assert!(store.get_memory("E3").is_some());
    assert!(store.get_memory("E4").is_some());
    assert!(store.get_memory("D1").is_some());
    let (kept, _) = store.get_memory(&res.recorded_ids[0]).expect("found");
    assert_eq!(kept.status, MemoryStatus::Active);
    assert_eq!(kept.session_id.as_deref(), Some("s"));
    assert_eq!(kept.title, "kept");
    let (note, _) = store.get_memory(&res.recorded_ids[1]).expect("found");
    assert_eq!(note.status, MemoryStatus::Active);
    assert_eq!(note.kind, MemoryKind::Ephemeral);
    let rels = store.get_memory_relations("D1");
    assert_eq!(rels.len(), 1);
    assert_eq!(rels[0].target_id, "E3");
}

#[test]
fn consolidation_can_archive() {
    let mut store = MemoryStore::new();
    store.record_memory(noted(Some("s"), "E1", MemoryKind::Ephemeral), T0).expect("record");
    store.record_memory(noted(Some("t"), "E2", MemoryKind::Ephemeral), T0).expect("record");
    let res = store.consolidate_session("s", vec![], false, T1).expect("consolidate");
    assert_eq!(res.learnings_recorded, 0);
    assert_eq!(res.ephemeral_purged, 0);
    assert_eq!(res.ephemeral_archived, 1);
    let (e1, _) = store.get_memory("E1").expect("found");
    assert_eq!(e1.status, MemoryStatus::Resolved);
    assert_eq!(e1.kind, MemoryKind::Ephemeral);
    assert_eq!(e1.updated_at, T1);
    assert_eq!(store.get_memory("E2").expect("found").0.status, MemoryStatus::Ephemeral);
}

#[test]
fn learnings_outlive_the_call_that_records_them() {
    for purge in [true, false] {
        let mut store = MemoryStore::new();
        let res = store
            .consolidate_session("s", vec![learning("t", MemoryKind::Ephemeral)], purge, T1)
            .expect("consolidate");
        assert_eq!(res.learnings_recorded, 1);
        assert_eq!(res.ephemeral_purged, 0);
        assert_eq!(res.ephemeral_archived, 0);
        let (m, _) = store.get_memory(&res.recorded_ids[0]).expect("found");
        assert_eq!(m.status, MemoryStatus::Active);
    }
}

#[test]
fn consolidation_is_all_or_nothing() {
    let mut store = MemoryStore::new();
    store.record_memory(noted(Some("s"), "E1", MemoryKind::Ephemeral), T0).expect("record");
    record(&mut store, "DEC-00000000", MemoryKind::Decision, T0);
    store.take_changes();
    let before = snapshot(&store);
    let learnings =
        || vec![learning("x", MemoryKind::Task), learning("y", MemoryKind::Decision)];
    let shorts = vec!["11111111".to_string(), "00000000".to_string()];
    let e = store
        .consolidate_session_as("s", learnings(), &shorts, true, T1)
        .expect_err("identifier taken");
    assert_eq!(e.message(), "Failed to insert consolidated session learning");
    let twice = vec![learning("x", MemoryKind::Task), learning("y", MemoryKind::Task)];
    let shorts = vec!["11111111".to_string(), "11111111".to_string()];
    let e = store
        .consolidate_session_as("s", twice, &shorts, true, T1)
        .expect_err("identifier made twice");
    assert_eq!(e.message(), "Failed to insert consolidated session learning");
    assert_eq!(snapshot(&store), before);
    assert!(store.take_changes().is_empty());
    let shorts = vec!["11111111".to_string(), "22222222".to_string()];
    let res = store
        .consolidate_session_as("s", learnings(), &shorts, true, T1)
        .expect("consolidate");
    assert_eq!(res.recorded_ids, vec!["TSK-11111111".to_string(), "DEC-22222222".to_string()]);
    assert!(store.get_memory("E1").is_none());
}

#[test]
fn sweep_takes_old_ephemeral_memories_only() {
    let mut store = MemoryStore::new();
    record(&mut store, "E1", MemoryKind::Ephemeral, T0);
    record(&mut store, "E2", MemoryKind::Ephemeral, T1);
    record(&mut store, "D1", MemoryKind::Decision, T0);
    record(&mut store, "E3", MemoryKind::Ephemeral, T0);
    store.resolve_memory("E3", None, T0).expect("resolve");
    store.link_entities("E1", "D1", RelationType::References, T0).expect("link");
    assert_eq!(store.purge_expired_ephemeral(T1), 1);
    assert!(store.get_memory("E1").is_none());
    assert!(store.get_memory("E2").is_some());
    assert!(store.get_memory("E3").is_some());
    assert!(store.get_memory_relations("D1").is_empty());
    assert_eq!(store.purge_expired_ephemeral(T1), 0);
}

fn row(id: &str) -> Memory {
    Memory {
        id: id.to_string(),
        kind: MemoryKind::Task,
        title: String::new(),
        body: String::new(),
        tags: None,
        status: MemoryStatus::Active,
        session_id: None,
        created_at: T0.to_string(),
        updated_at: T0.to_string(),
    }
}

fn link(source: &str, target: &str) -> MemoryRelation {
    MemoryRelation {
        source_id: source.to_string(),
        target_id: target.to_string(),
        relation_type: RelationType::Blocks,
        created_at: T0.to_string(),
    }
}

#[test]
fn rows_that_are_no_graph_are_refused() {
    let bad = [
        ExportData { memories: vec![row("a"), row("b"), row("a")], relations: vec![] },
        ExportData {
            memories: vec![row("a"), row("b")],
            relations: vec![link("a", "b"), link("a", "b")],
        },
    ];
    for data in bad {
        match MemoryStore::load(data) {
            Ok(_) => panic!("loaded"),
            Err(e) => {
                assert_eq!(e.message(), "The stored memories and relations are inconsistent")
            }
        }
    }
    let good = ExportData {
        memories: vec![row("a"), row("b")],
        relations: vec![link("a", "b"), link("b", "a")],
    };
    let mut store = match MemoryStore::load(good) {
        Ok(store) => store,
        Err(e) => panic!("{}", e.message()),
    };
    assert_eq!(store.stats().total_relations, 2);
    assert!(store.take_changes().is_empty());
}

#[test]
fn edges_that_dangle_are_left_out() {
    let data = ExportData {
        memories: vec![row("a"), row("b")],
        relations: vec![link("a", "x"), link("a", "b"), link("x", "a"), link("a", "x")],
    };
    let mut store = match MemoryStore::load(data) {
        Ok(store) => store,
        Err(e) => panic!("{}", e.message()),
    };
    assert_eq!(store.stats().total_relations, 1);
    assert_eq!(store.get_memory_relations("a").len(), 1);
    assert_eq!(store.get_memory_relations("a")[0].target_id, "b");
    store.resolve_memory("a", None, T1).expect("resolve");
}

#[test]
fn journal_holds_every_change_in_order() {
    let mut store = MemoryStore::new();
    record(&mut store, "A", MemoryKind::Decision, T0);
    let mut o = options("B", MemoryKind::Decision);
    o.supersedes_id = Some("A".to_string());
    store.record_memory(o, T1).expect("record");
    store.resolve_memory("B", Some("n"), T2).expect("resolve");
    let sql: Vec<&str> = store.take_changes().iter().map(|c| c.statement().sql).collect();
    assert_eq!(
        sql,
        vec![
            "INSERT INTO memories (id, kind, title, body, tags, status, session_id, created_at, updated_at) VALUES (?1, ?2, ?3, ?4, ?5, ?6, ?7, ?8, ?9)",
            "UPDATE memories SET status = ?2, updated_at = ?3 WHERE id = ?1",
            "INSERT INTO memories (id, kind, title, body, tags, status, session_id, created_at, updated_at) VALUES (?1, ?2, ?3, ?4, ?5, ?6, ?7, ?8, ?9)",
            "INSERT OR REPLACE INTO memory_relations (source_id, target_id, relation_type, created_at) VALUES (?1, ?2, ?3, ?4)",
            "UPDATE memories SET status = ?2, body = ?3, updated_at = ?4 WHERE id = ?1",
        ]
    );
    assert!(store.take_changes().is_empty());
}

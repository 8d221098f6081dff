use memdag::cli::{
    greeting, perform, print_stats, read_command, startup, text_lookup, Commands, McpAction,
    Startup,
};
use memdag::db::{
    cutoff_modifier, default_db_path, find_project_root, memory_from_row, parse_natural,
    relation_from_row, ttl_seconds, DbLocation, DirProbe, MemoryRow, RelationRow,
};
use memdag::search::Hit;
use memdag::store::draw_short_texts;
use memdag::tools::{count_ids, may_change};
use memdag::{MemoryKind, MemoryStatus, MemoryStore, RelationType};

const T: &str = "2026-03-01 10:00:00";

fn record(kind: &str, id: Option<&str>, title: &str) -> Commands {
    Commands::Record {
        kind: kind.to_string(),
        title: title.to_string(),
        body: "the body".to_string(),
        tags: None,
        supersedes: None,
        session: None,
        id: id.map(str::to_string),
    }
}

fn run(store: &mut MemoryStore, command: Commands) -> Result<String, String> {
    let call = match read_command(command) {
        Ok(Some(call)) => call,
        Ok(None) => panic!("no call"),
        Err(e) => return Err(e),
    };
    let shorts = draw_short_texts(count_ids(&call));
    perform(store, call, &Ok(vec![]), &shorts, T)
}

fn link(source: &str, target: &str, relation: &str) -> Commands {
    Commands::Link {
        source_id: source.to_string(),
        target_id: target.to_string(),
        relation: relation.to_string(),
    }
}

#[test]
fn recording_prints_the_memory() {
    let mut store = MemoryStore::new();
    assert_eq!(
        run(&mut store, record("Task", Some("TSK-100"), "Ship v0.2 release automation")),
        Ok("Recorded memory: [TSK-100] Ship v0.2 release automation\n  Kind:   task\n  Status: active\n".to_string())
    );
    let tagged = Commands::Record {
        kind: "decision".to_string(),
        title: "t".to_string(),
        body: String::new(),
        tags: Some("a b".to_string()),
        supersedes: Some("TSK-100".to_string()),
        session: Some("s".to_string()),
        id: Some("D".to_string()),
    };
    assert_eq!(
        run(&mut store, tagged),
        Ok("Recorded memory: [D] t\n  Kind:   decision\n  Status: active\n  Tags:   a b\n".to_string())
    );
    let made = run(&mut store, record("invariant", None, "x")).expect("record");
    assert!(made.starts_with("Recorded memory: [INV-"));
    assert_eq!(
        run(&mut store, record("idea", None, "x")),
        Err("Invalid memory kind: idea. Must be one of: decision, task, invariant, blocker, ephemeral".to_string())
    );
    assert_eq!(
        run(&mut store, record("task", Some("D"), "x")),
        Err("Failed to insert memory record".to_string())
    );
}

#[test]
fn linking_prints_the_edge() {
    let mut store = MemoryStore::new();
    run(&mut store, record("task", Some("A"), "a")).expect("record");
    run(&mut store, record("blocker", Some("B"), "b")).expect("record");
    assert_eq!(
        run(&mut store, link("B", "A", "blocks")),
        Ok("Linked: [B] --(blocks)--> [A]\n".to_string())
    );
    assert_eq!(
        run(&mut store, link("B", "C", "blocks")),
        Err("Target entity 'C' not found".to_string())
    );
    assert_eq!(
        run(&mut store, link("B", "A", "hugs")),
        Err("Invalid relation type: hugs. Must be one of: supersedes, depends_on, blocks, references".to_string())
    );
}

#[test]
fn memories_are_printed_in_full() {
    let mut store = MemoryStore::new();
    run(&mut store, record("task", Some("A"), "a")).expect("record");
    let noted = Commands::Record {
        kind: "blocker".to_string(),
        title: "b".to_string(),
        body: "line".to_string(),
        tags: Some("x".to_string()),
        supersedes: None,
        session: Some("s".to_string()),
        id: Some("B".to_string()),
    };
    run(&mut store, noted).expect("record");
    run(&mut store, link("B", "A", "blocks")).expect("link");
    assert_eq!(
        run(&mut store, Commands::Get { id: "B".to_string() }),
        Ok("ID:          B\nTitle:       b\nKind:        blocker\nStatus:      active\nTags:        x\nSession:     s\nCreated At:  2026-03-01 10:00:00\nUpdated At:  2026-03-01 10:00:00\n\nBody:\nline\n\nRelations:\n  - `blocks` ➔ [A] a (active)\n".to_string())
    );
    run(&mut store, record("decision", Some("C"), "c")).expect("record");
    assert_eq!(
        run(&mut store, Commands::Get { id: "C".to_string() }),
        Ok("ID:          C\nTitle:       c\nKind:        decision\nStatus:      active\nCreated At:  2026-03-01 10:00:00\nUpdated At:  2026-03-01 10:00:00\n\nBody:\nthe body\n".to_string())
    );
    assert_eq!(
        run(&mut store, Commands::Get { id: "Z".to_string() }),
        Ok("Memory with ID 'Z' not found.\n".to_string())
    );
}

fn list(status: Option<&str>, kind: Option<&str>, limit: usize) -> Commands {
    Commands::List { status: status.map(str::to_string), kind: kind.map(str::to_string), limit }
}

#[test]
fn lists_are_printed_in_columns() {
    let mut store = MemoryStore::new();
    assert_eq!(run(&mut store, list(None, None, 20)), Ok("No memories found.\n".to_string()));
    assert_eq!(
        run(&mut store, Commands::Ready { limit: 20 }),
        Ok("No ready tasks or blockers found.\n".to_string())
    );
    run(&mut store, record("task", Some("A"), "a")).expect("record");
    run(&mut store, record("decision", Some("B"), "b")).expect("record");
    assert_eq!(
        run(&mut store, list(None, None, 20)),
        Ok("[A] (task)    active a\n[B] (decision) active b\n".to_string())
    );
    assert_eq!(
        run(&mut store, list(Some("Active"), Some("decision"), 20)),
        Ok("[B] (decision) active b\n".to_string())
    );
    assert_eq!(
        run(&mut store, Commands::Ready { limit: 20 }),
        Ok("[A] (task)    active a\n".to_string())
    );
    assert_eq!(
        run(&mut store, list(Some("x"), Some("y"), 20)),
        Err("Invalid memory status: x. Must be one of: active, superseded, resolved, ephemeral".to_string())
    );
    assert_eq!(
        run(&mut store, list(None, Some("y"), 20)),
        Err("Invalid memory kind: y. Must be one of: decision, task, invariant, blocker, ephemeral".to_string())
    );
}

fn search(query: &str, kind: Option<&str>) -> Commands {
    Commands::Search {
        query: query.to_string(),
        kind: kind.map(str::to_string),
        include_resolved: false,
        limit: 10,
    }
}

#[test]
fn searching_prints_the_report() {
    let mut store = MemoryStore::new();
    assert_eq!(
        run(&mut store, search("", None)),
        Ok("No relevant memories found matching the query.\n".to_string())
    );
    run(&mut store, record("task", Some("A"), "a")).expect("record");
    assert_eq!(
        run(&mut store, search("", Some("task"))),
        Ok("Found 1 relevant active memory/DAG entries:\n\n### 1. [A] a (kind: task, status: active)\n- **Body**: the body\n\n\n".to_string())
    );
    assert!(run(&mut store, search("", Some("tusk"))).is_err());
    let call = read_command(search("b c", None)).expect("call").expect("call");
    assert_eq!(text_lookup(&call), Some("\"b\"* \"c\"*".to_string()));
    assert!(!may_change(&call));
    let hits = Ok(vec![Hit { id: "A".to_string(), score: 3 }]);
    let text = perform(&mut store, call, &hits, &vec![], T).expect("search");
    assert!(text.starts_with("Found 1 relevant"));
    let call = read_command(search("b c", None)).expect("call").expect("call");
    assert_eq!(
        perform(&mut store, call, &Err("fts5: broken".to_string()), &vec![], T),
        Err("fts5: broken".to_string())
    );
    let call = read_command(Commands::Ready { limit: 1 }).expect("call").expect("call");
    assert_eq!(text_lookup(&call), None);
}

#[test]
fn consolidating_prints_the_counts() {
    let mut store = MemoryStore::new();
    let note = Commands::Record {
        kind: "ephemeral".to_string(),
        title: "n".to_string(),
        body: String::new(),
        tags: None,
        supersedes: None,
        session: Some("s".to_string()),
        id: Some("E".to_string()),
    };
    run(&mut store, note).expect("record");
    let consolidate = |kind: &str| Commands::Consolidate {
        session: "s".to_string(),
        title: "l".to_string(),
        body: "b".to_string(),
        kind: kind.to_string(),
        tags: None,
        no_purge: true,
    };
    let call = read_command(consolidate("decision")).expect("call").expect("call");
    assert!(may_change(&call));
    assert_eq!(
        perform(&mut store, call, &Ok(vec![]), &vec!["abcdef01".to_string()], T),
        Ok("Consolidated session 's':\n  Learnings recorded:  1\n  Ephemeral purged:    0\n  Ephemeral archived:  1\n  Recorded IDs:        [\"DEC-abcdef01\"]\n".to_string())
    );
    assert!(run(&mut store, consolidate("x")).is_err());
}

#[test]
fn resolving_prints_the_memory() {
    let mut store = MemoryStore::new();
    run(&mut store, record("task", Some("A"), "a")).expect("record");
    let resolve = |id: &str| Commands::Resolve { id: id.to_string(), note: Some("n".to_string()) };
    assert_eq!(
        run(&mut store, resolve("A")),
        Ok("Resolved memory [A] a (status: resolved)\n".to_string())
    );
    assert_eq!(run(&mut store, resolve("B")), Err("Memory 'B' not found".to_string()));
}

#[test]
fn statistics_are_printed() {
    let mut store = MemoryStore::new();
    assert_eq!(
        print_stats(&store.stats(), "\"x.db\""),
        "Database Statistics (\"x.db\"):\n  Total Memories:       0\n  Active Memories:      0\n  Superseded Memories:  0\n  Resolved Memories:    0\n  Ephemeral Memories:   0\n  Total Relations:      0\n"
    );
    run(&mut store, record("task", Some("A"), "a")).expect("record");
    run(&mut store, record("blocker", Some("B"), "b")).expect("record");
    run(&mut store, link("B", "A", "blocks")).expect("link");
    run(&mut store, link("A", "B", "references")).expect("link");
    assert_eq!(
        print_stats(&store.stats(), "\"x.db\""),
        "Database Statistics (\"x.db\"):\n  Total Memories:       2\n  Active Memories:      2\n  Superseded Memories:  0\n  Resolved Memories:    0\n  Ephemeral Memories:   0\n  Total Relations:      2\n  Relations Breakdown:\n    - blocks          1\n    - references      1\n"
    );
}

#[test]
fn counts_are_printed_with_their_sign() {
    let mut stats = MemoryStore::new().stats();
    stats.total_memories = i64::MAX;
    stats.active_memories = i64::MIN;
    stats.resolved_memories = -7;
    let text = print_stats(&stats, "x");
    assert!(text.contains("  Total Memories:       9223372036854775807\n"));
    assert!(text.contains("  Active Memories:      -9223372036854775808\n"));
    assert!(text.contains("  Resolved Memories:    -7\n"));
}

#[test]
fn commands_without_a_call() {
    assert!(matches!(read_command(Commands::Stats), Ok(None)));
    assert!(matches!(read_command(Commands::Serve), Ok(None)));
}

#[test]
fn program_serves_unless_a_person_watches() {
    let action = McpAction::Install { global: false, path: None, key: "k".to_string() };
    assert_eq!(startup(&Some(Commands::Mcp { action }), false), Startup::Configure);
    assert_eq!(startup(&Some(Commands::Serve), true), Startup::Serve);
    assert_eq!(startup(&Some(Commands::Stats), false), Startup::Run);
    assert_eq!(startup(&None, false), Startup::Serve);
    assert_eq!(startup(&None, true), Startup::Greet);
    assert!(greeting().starts_with("memdag v0.1.0 - Relational DAG & FTS5 memory engine with sqlite-vec\nRun 'memdag --help'"));
}

fn probe(has_memdag_dir: bool, has_git: bool) -> DirProbe {
    DirProbe { has_memdag_dir, has_git }
}

#[test]
fn finds_git_root_from_nested_dir() {
    let probes = vec![probe(false, false), probe(false, false), probe(false, true)];
    assert_eq!(find_project_root(&probes), Some(2));
}

#[test]
fn prefers_existing_memdag_dir_over_ancestor_git() {
    let probes = vec![probe(true, false), probe(false, true)];
    assert_eq!(find_project_root(&probes), Some(0));
    assert_eq!(find_project_root(&vec![probe(false, false)]), None);
    assert_eq!(find_project_root(&vec![]), None);
}

#[test]
fn database_lies_where_the_environment_says_first() {
    let project = vec![probe(false, false), probe(false, true), probe(true, true)];
    let none = vec![probe(false, false)];
    assert_eq!(default_db_path(true, &project, true), DbLocation::Environment);
    assert_eq!(default_db_path(false, &project, true), DbLocation::Project(1));
    assert_eq!(default_db_path(false, &none, true), DbLocation::DataDir);
    assert_eq!(default_db_path(false, &none, false), DbLocation::WorkingDir);
}

#[test]
fn lifetimes_are_read_as_numbers() {
    assert_eq!(ttl_seconds(None), 86400);
    assert_eq!(ttl_seconds(Some("3600")), 3600);
    assert_eq!(ttl_seconds(Some("+7")), 7);
    assert_eq!(ttl_seconds(Some("0")), 0);
    assert_eq!(ttl_seconds(Some("soon")), 86400);
    assert_eq!(ttl_seconds(Some("-1")), 86400);
    assert_eq!(ttl_seconds(Some("")), 86400);
    assert_eq!(parse_natural("18446744073709551615"), Some(u64::MAX));
    assert_eq!(parse_natural("18446744073709551616"), None);
    assert_eq!(parse_natural("00042"), Some(42));
    assert_eq!(parse_natural("+"), None);
    assert_eq!(parse_natural("1 "), None);
    assert_eq!(cutoff_modifier(3600), "-3600 seconds");
}

#[test]
fn rows_are_read_with_defaults() {
    let row = |kind: &str, status: &str| MemoryRow {
        id: "A".to_string(),
        kind: kind.to_string(),
        title: "t".to_string(),
        body: "b".to_string(),
        tags: Some("x".to_string()),
        status: status.to_string(),
        session_id: None,
        created_at: T.to_string(),
        updated_at: T.to_string(),
    };
    let m = memory_from_row(row("blocker", "resolved"));
    assert_eq!(m.kind, MemoryKind::Blocker);
    assert_eq!(m.status, MemoryStatus::Resolved);
    assert_eq!(m.tags.as_deref(), Some("x"));
    let m = memory_from_row(row("?", "?"));
    assert_eq!(m.kind, MemoryKind::Decision);
    assert_eq!(m.status, MemoryStatus::Active);
    let edge = |relation: &str| RelationRow {
        source_id: "A".to_string(),
        target_id: "B".to_string(),
        relation_type: relation.to_string(),
        created_at: T.to_string(),
    };
    assert_eq!(relation_from_row(edge("blocks")).relation_type, RelationType::Blocks);
    assert_eq!(relation_from_row(edge("?")).relation_type, RelationType::References);
}

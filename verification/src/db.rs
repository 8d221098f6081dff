//! The database: its schema, what is read from it, and where it lies.

use crate::models::{
    kind_named, law_kind_round_trip, law_relation_round_trip, law_status_round_trip, normal_form,
    opt_text, relation_named, status_named, Memory, MemoryKind, MemoryRelation, MemoryStatus,
    MemoryView, RelationType, RelationView,
};
use crate::tables::ChangeView;
use crate::text::{chars_of, code_point, decimal, push_decimal};
use vstd::prelude::*;
use vstd::string::*;

verus! {

/// How every connection is set up.
pub const PRAGMA_SQL: &'static str = "
PRAGMA journal_mode = WAL;
PRAGMA busy_timeout = 5000;
PRAGMA foreign_keys = ON;
PRAGMA synchronous = NORMAL;
";

/// Finds a row where the schema exists.
pub const SCHEMA_PROBE_SQL: &'static str = "SELECT 1 FROM sqlite_master WHERE type = 'table' AND name = 'memories'";

/// The tables, the text index and the triggers that keep it in step.
pub const DDL_SQL: &'static str = "
-- Core memory entities (decisions, tasks, bugs, invariant facts)
CREATE TABLE IF NOT EXISTS memories (
    id TEXT PRIMARY KEY,
    kind TEXT NOT NULL CHECK(kind IN ('decision', 'task', 'invariant', 'blocker', 'ephemeral')),
    title TEXT NOT NULL,
    body TEXT NOT NULL,
    tags TEXT,
    status TEXT NOT NULL DEFAULT 'active' CHECK(status IN ('active', 'superseded', 'resolved', 'ephemeral')),
    session_id TEXT,
    created_at DATETIME DEFAULT CURRENT_TIMESTAMP,
    updated_at DATETIME DEFAULT CURRENT_TIMESTAMP
);

-- Relational Directed Graph (Supersession, Dependency, Blocking)
CREATE TABLE IF NOT EXISTS memory_relations (
    source_id TEXT NOT NULL REFERENCES memories(id) ON DELETE CASCADE,
    target_id TEXT NOT NULL REFERENCES memories(id) ON DELETE CASCADE,
    relation_type TEXT NOT NULL CHECK(relation_type IN ('supersedes', 'depends_on', 'blocks', 'references')),
    created_at DATETIME DEFAULT CURRENT_TIMESTAMP,
    PRIMARY KEY (source_id, target_id, relation_type)
);

-- Indexes for performance
CREATE INDEX IF NOT EXISTS idx_memory_relations_source ON memory_relations(source_id);
CREATE INDEX IF NOT EXISTS idx_memory_relations_target ON memory_relations(target_id);
CREATE INDEX IF NOT EXISTS idx_memories_status ON memories(status);
CREATE INDEX IF NOT EXISTS idx_memories_kind ON memories(kind);
CREATE INDEX IF NOT EXISTS idx_memories_session ON memories(session_id);

-- FTS5 Virtual Table for BM25 Search
CREATE VIRTUAL TABLE IF NOT EXISTS memories_fts USING fts5(
    id UNINDEXED,
    title,
    body,
    tags,
    content='memories',
    content_rowid='rowid',
    tokenize='porter unicode61'
);

-- Sync Triggers between Core Table and FTS5 Index
CREATE TRIGGER IF NOT EXISTS memories_ai AFTER INSERT ON memories BEGIN
    INSERT INTO memories_fts(rowid, id, title, body, tags)
    VALUES (new.rowid, new.id, new.title, new.body, new.tags);
END;

CREATE TRIGGER IF NOT EXISTS memories_ad AFTER DELETE ON memories BEGIN
    INSERT INTO memories_fts(memories_fts, rowid, id, title, body, tags)
    VALUES ('delete', old.rowid, old.id, old.title, old.body, old.tags);
END;

CREATE TRIGGER IF NOT EXISTS memories_au AFTER UPDATE ON memories BEGIN
    INSERT INTO memories_fts(memories_fts, rowid, id, title, body, tags)
    VALUES ('delete', old.rowid, old.id, old.title, old.body, old.tags);
    INSERT INTO memories_fts(rowid, id, title, body, tags)
    VALUES (new.rowid, new.id, new.title, new.body, new.tags);
END;
";

/// The vector index. It takes the sqlite-vec extension.
pub const VECTOR_DDL_SQL: &'static str = "
CREATE VIRTUAL TABLE IF NOT EXISTS memories_vec USING vec0(
    id TEXT PRIMARY KEY,
    embedding float[384] distance_metric=cosine
);
";

/// Reads all memories in the order of their insertion.
pub const MEMORIES_SQL: &'static str = "SELECT id, kind, title, body, tags, status, session_id, created_at, updated_at FROM memories ORDER BY rowid";

/// Reads all edges in the order of their insertion.
pub const RELATIONS_SQL: &'static str = "SELECT source_id, target_id, relation_type, created_at FROM memory_relations ORDER BY rowid";

/// Asks the text index, best match first.
pub const TEXT_LOOKUP_SQL: &'static str = "SELECT m.id, bm25(memories_fts) AS rank FROM memories_fts f JOIN memories m ON f.rowid = m.rowid WHERE memories_fts MATCH ?1 ORDER BY rank";

/// Asks the vector index, nearest first.
pub const VECTOR_LOOKUP_SQL: &'static str = "SELECT v.id, v.distance FROM memories_vec v WHERE v.embedding MATCH ?1 AND v.k = ?2 ORDER BY v.distance ASC";

/// Reads the time.
pub const NOW_SQL: &'static str = "SELECT CURRENT_TIMESTAMP";

/// Reads the time changed by a modifier.
pub const CUTOFF_SQL: &'static str = "SELECT datetime('now', ?1)";

/// The directory of a project that holds its database.
pub const PROJECT_DIR: &'static str = ".memdag";

/// The name of the database file.
pub const DB_FILE: &'static str = "memdag.db";

/// A row of the table of memories, as the database gives it.
#[derive(Debug)]
pub struct MemoryRow {
    pub id: String,
    pub kind: String,
    pub title: String,
    pub body: String,
    pub tags: Option<String>,
    pub status: String,
    pub session_id: Option<String>,
    pub created_at: String,
    pub updated_at: String,
}

/// A row of the table of edges, as the database gives it.
#[derive(Debug)]
pub struct RelationRow {
    pub source_id: String,
    pub target_id: String,
    pub relation_type: String,
    pub created_at: String,
}

/// The kind that a stored text names; a decision where it names none.
pub open spec fn stored_kind(s: Seq<char>) -> MemoryKind {
    match kind_named(normal_form(s)) {
        Some(kind) => kind,
        None => MemoryKind::Decision,
    }
}

/// The state that a stored text names; active where it names none.
pub open spec fn stored_status(s: Seq<char>) -> MemoryStatus {
    match status_named(normal_form(s)) {
        Some(status) => status,
        None => MemoryStatus::Active,
    }
}

/// The edge type that a stored text names; a reference where it names none.
pub open spec fn stored_relation(s: Seq<char>) -> RelationType {
    match relation_named(normal_form(s)) {
        Some(relation) => relation,
        None => RelationType::References,
    }
}

/// The columns of a row of the table of memories; none where the column is
/// empty.
pub open spec fn memory_columns(row: MemoryRow) -> Seq<Option<Seq<char>>> {
    seq![
        Some(row.id@),
        Some(row.kind@),
        Some(row.title@),
        Some(row.body@),
        opt_text(row.tags),
        Some(row.status@),
        opt_text(row.session_id),
        Some(row.created_at@),
        Some(row.updated_at@),
    ]
}

/// The memory that columns stand for.
pub open spec fn memory_of(columns: Seq<Option<Seq<char>>>) -> MemoryView {
    MemoryView {
        id: columns[0]->0,
        kind: stored_kind(columns[1]->0),
        title: columns[2]->0,
        body: columns[3]->0,
        tags: columns[4],
        status: stored_status(columns[5]->0),
        session_id: columns[6],
        created_at: columns[7]->0,
        updated_at: columns[8]->0,
    }
}

/// The columns of a row of the table of edges.
pub open spec fn relation_columns(row: RelationRow) -> Seq<Option<Seq<char>>> {
    seq![
        Some(row.source_id@),
        Some(row.target_id@),
        Some(row.relation_type@),
        Some(row.created_at@),
    ]
}

/// The edge that columns stand for.
pub open spec fn relation_of(columns: Seq<Option<Seq<char>>>) -> RelationView {
    RelationView {
        source_id: columns[0]->0,
        target_id: columns[1]->0,
        relation_type: stored_relation(columns[2]->0),
        created_at: columns[3]->0,
    }
}

/// A memory that is inserted is read back as it is.
pub proof fn law_memory_read_back(memory: MemoryView)
    ensures
        memory_of(ChangeView::Insert { memory: memory }.params()) == memory,
{
    law_kind_round_trip(memory.kind);
    law_status_round_trip(memory.status);
}

/// An edge that is put is read back as it is.
pub proof fn law_relation_read_back(relation: RelationView)
    ensures
        relation_of(ChangeView::PutRelation { relation: relation }.params()) == relation,
{
    law_relation_round_trip(relation.relation_type);
}

/// The memory of a row.
pub fn memory_from_row(row: MemoryRow) -> (res: Memory)
    ensures
        res@ == memory_of(memory_columns(row)),
        res.id@ == row.id@,
        res.title@ == row.title@,
        res.body@ == row.body@,
        res.tags == row.tags,
        res.session_id == row.session_id,
        res.created_at@ == row.created_at@,
        res.updated_at@ == row.updated_at@,
        normal_form(row.kind@) == res.kind.text() || (res.kind == MemoryKind::Decision
            && kind_named(normal_form(row.kind@)) is None),
        normal_form(row.status@) == res.status.text() || (res.status == MemoryStatus::Active
            && status_named(normal_form(row.status@)) is None),
{
    let kind = match MemoryKind::from_str(row.kind.as_str()) {
        Ok(kind) => kind,
        Err(_) => MemoryKind::Decision,
    };
    let status = match MemoryStatus::from_str(row.status.as_str()) {
        Ok(status) => status,
        Err(_) => MemoryStatus::Active,
    };
    Memory {
        id: row.id,
        kind,
        title: row.title,
        body: row.body,
        tags: row.tags,
        status,
        session_id: row.session_id,
        created_at: row.created_at,
        updated_at: row.updated_at,
    }
}

/// The edge of a row.
pub fn relation_from_row(row: RelationRow) -> (res: MemoryRelation)
    ensures
        res@ == relation_of(relation_columns(row)),
        res.source_id@ == row.source_id@,
        res.target_id@ == row.target_id@,
        res.created_at@ == row.created_at@,
{
    let relation_type = match RelationType::from_str(row.relation_type.as_str()) {
        Ok(relation_type) => relation_type,
        Err(_) => RelationType::References,
    };
    MemoryRelation {
        source_id: row.source_id,
        target_id: row.target_id,
        relation_type,
        created_at: row.created_at,
    }
}

/// What a directory holds that marks a project.
#[derive(Debug, Clone, Copy, PartialEq, Eq, Structural)]
pub struct DirProbe {
    /// Whether it holds a directory `.memdag`.
    pub has_memdag_dir: bool,
    /// Whether it holds anything named `.git`.
    pub has_git: bool,
}

/// A directory that is the root of a project.
pub open spec fn is_project_root(probe: DirProbe) -> bool {
    probe.has_memdag_dir || probe.has_git
}

/// The nearest root of a project: `probes` tells of a directory and then of
/// each directory above it, and the result is how many levels up the root is.
pub fn find_project_root(probes: &Vec<DirProbe>) -> (res: Option<usize>)
    ensures
        match res {
            Some(up) => up < probes@.len() && is_project_root(probes@[up as int]) && forall|i: int|
                0 <= i < up ==> !is_project_root(#[trigger] probes@[i]),
            None => forall|i: int|
                0 <= i < probes@.len() ==> !is_project_root(#[trigger] probes@[i]),
        },
{
    let mut i: usize = 0;
    while i < probes.len()
        invariant
            i <= probes@.len(),
            forall|k: int| 0 <= k < i ==> !is_project_root(#[trigger] probes@[k]),
        decreases probes@.len() - i,
    {
        if probes[i].has_memdag_dir || probes[i].has_git {
            return Some(i);
        }
        i += 1;
    }
    None
}

/// Where the database lies.
#[derive(Debug, Clone, Copy, PartialEq, Eq, Structural)]
pub enum DbLocation {
    /// Where the environment says.
    Environment,
    /// In the project directory of the root that many levels up.
    Project(usize),
    /// In the user's data directory.
    DataDir,
    /// In the working directory.
    WorkingDir,
}

/// Where the database lies by default: `in_environment` tells whether the
/// environment names a place, `probes` is as for [`find_project_root`], and
/// `has_data_dir` tells whether the user has a data directory.
pub fn default_db_path(in_environment: bool, probes: &Vec<DirProbe>, has_data_dir: bool) -> (res:
    DbLocation)
    ensures
        res == DbLocation::Environment <==> in_environment,
        res matches DbLocation::Project(up) ==> up < probes@.len() && is_project_root(
            probes@[up as int],
        ) && forall|i: int| 0 <= i < up ==> !is_project_root(#[trigger] probes@[i]),
        res is Project <==> !in_environment && exists|i: int|
            0 <= i < probes@.len() && is_project_root(#[trigger] probes@[i]),
        res == DbLocation::DataDir ==> has_data_dir,
        res == DbLocation::WorkingDir ==> !has_data_dir,
{
    if in_environment {
        return DbLocation::Environment;
    }
    match find_project_root(probes) {
        Some(up) => DbLocation::Project(up),
        None => if has_data_dir {
            DbLocation::DataDir
        } else {
            DbLocation::WorkingDir
        },
    }
}

/// A text of decimal digits.
pub open spec fn all_digits(s: Seq<char>) -> bool {
    s.len() > 0 && forall|i: int| 0 <= i < s.len() ==> '0' <= #[trigger] s[i] && s[i] <= '9'
}

/// The number that decimal digits stand for.
pub open spec fn digits_value(s: Seq<char>) -> nat
    decreases s.len(),
{
    if s.len() == 0 {
        0
    } else {
        10 * digits_value(s.drop_last()) + (s.last() as int - 48) as nat
    }
}

/// A text without a leading plus sign.
pub open spec fn unsigned(s: Seq<char>) -> Seq<char> {
    if s.len() > 0 && s[0] == '+' {
        s.drop_first()
    } else {
        s
    }
}

/// The natural number that a text stands for, where it fits 64 bits.
pub open spec fn natural_of(s: Seq<char>) -> Option<nat> {
    let digits = unsigned(s);
    if all_digits(digits) && digits_value(digits) <= u64::MAX {
        Some(digits_value(digits))
    } else {
        None
    }
}

/// Only digits, after at most one plus sign, are read as a number.
pub proof fn law_natural_digits(s: Seq<char>, i: int)
    requires
        natural_of(s) is Some,
        0 <= i < s.len(),
    ensures
        ('0' <= s[i] && s[i] <= '9') || (i == 0 && s[0] == '+' && s.len() > 1),
{
    let digits = unsigned(s);
    if s[0] == '+' {
        if i > 0 {
            assert(digits[i - 1] == s[i]);
        }
    } else {
        assert(digits[i] == s[i]);
    }
}

/// More digits make no smaller number.
proof fn lemma_digits_grow(s: Seq<char>, i: int)
    requires
        0 <= i <= s.len(),
    ensures
        digits_value(s.take(i)) <= digits_value(s),
    decreases s.len() - i,
{
    if i == s.len() {
        assert(s.take(i) =~= s);
    } else {
        assert(s.take(i + 1).drop_last() =~= s.take(i));
        lemma_digits_grow(s, i + 1);
    }
}

/// The natural number that a text stands for, where it fits 64 bits.
pub fn parse_natural(s: &str) -> (res: Option<u64>)
    ensures
        match natural_of(s@) {
            Some(n) => res is Some && res->0 == n,
            None => res is None,
        },
{
    let cs = chars_of(s);
    let n: usize = cs.len();
    let start: usize = if n > 0 && cs[0] == '+' {
        1
    } else {
        0
    };
    let ghost digits = unsigned(s@);
    proof {
        assert(digits =~= s@.skip(start as int));
    }
    if start == n {
        return None;
    }
    let mut value: u64 = 0;
    let mut i: usize = start;
    proof {
        assert(digits.take(0) =~= Seq::empty());
    }
    while i < n
        invariant
            start <= i <= n,
            n == cs@.len(),
            cs@ == s@,
            digits == s@.skip(start as int),
            digits == unsigned(s@),
            digits.len() == n - start,
            forall|k: int| 0 <= k < i - start ==> '0' <= #[trigger] digits[k] && digits[k] <= '9',
            value == digits_value(digits.take(i - start)),
        decreases n - i,
    {
        let c: char = cs[i];
        let ghost k = i - start;
        proof {
            assert(digits[k] == c);
            assert(digits.take(k + 1).drop_last() =~= digits.take(k));
            assert(digits.take(k + 1).last() == c);
            lemma_digits_grow(digits, k + 1);
        }
        if c < '0' || c > '9' {
            proof {
                assert(!all_digits(digits));
            }
            return None;
        }
        let d: u64 = (code_point(c) - 48) as u64;
        if value > (u64::MAX - d) / 10 {
            proof {
                assert(10 * value + d > u64::MAX);
            }
            return None;
        }
        value = value * 10 + d;
        i += 1;
    }
    proof {
        assert(digits.take(i - start) =~= digits);
    }
    Some(value)
}

/// After how many seconds an ephemeral memory is swept away, where the
/// environment does not say.
pub const DEFAULT_TTL_SECS: u64 = 86400;

/// After how many seconds an ephemeral memory is swept away.
pub fn ttl_seconds(setting: Option<&str>) -> (res: u64)
    ensures
        res as nat == match setting {
            Some(s) => match natural_of(s@) {
                Some(n) => n,
                None => DEFAULT_TTL_SECS as nat,
            },
            None => DEFAULT_TTL_SECS as nat,
        },
{
    match setting {
        Some(s) => match parse_natural(s) {
            Some(n) => n,
            None => DEFAULT_TTL_SECS,
        },
        None => DEFAULT_TTL_SECS,
    }
}

/// The modifier of a time that goes back by `secs` seconds.
pub fn cutoff_modifier(secs: u64) -> (res: String)
    ensures
        res@ == "-"@ + decimal(secs as nat) + " seconds"@,
{
    let mut res = "-".to_owned();
    push_decimal(&mut res, secs);
    res.append(" seconds");
    res
}

} // verus!

//! The memory graph: recording, linking, resolving, listing and clearing up.

use crate::change::Change;
use crate::models::{
    clone_opt, opt_text, DatabaseStats, ExportData, LearningView, Memory, MemoryKind,
    MemoryRelation, MemorySearchResult, MemoryStatus, MemoryView, RelatedEntity, RelationType,
    RelationView, SearchResultView, SessionLearning,
};
use crate::plans::{
    archivings, consolidate_plan, deletions, embedding_text, expired, fresh_ids, generated_id,
    is_expired, is_scratch, learning_ids, learning_inserts, lemma_replay_inserts, link_plan,
    record_plan, recorded_row, resolve_plan, resolved_row, scratch, EMBEDDING_DIM,
};
use crate::queries::{
    count_status, count_type, count_value, list_rows, listing, ready_listing, ready_rows, related,
    related_of, related_rows, status_count, to_count, type_count,
};
use crate::rows::{
    contains_id, find_row, is_same_edge, memories_except, memory_rows, relation_rows,
    relations_anchored, relations_off, relations_other_than,
};
use crate::search::{
    clamp_limit, hit_rows, index_query, matched_results, nearest, recent_results, result_rows,
    search_results, Hit,
};
use crate::tables::{
    admissible, anchored, apply, find, has_id, lemma_anchored, lemma_apply_valid,
    lemma_filter_take, lemma_find, lemma_replay_concat, lemma_replay_push, replay, same_edge,
    unique_edges, unique_ids, ChangeView, Tables,
};
use crate::text::{is_text_before, join, str_text, texts};
pub use crate::render::{format_relations, format_search_results_for_llm};
pub use crate::search::{sanitize_fts5_query, SearchOptions};
use vstd::prelude::*;
use vstd::string::*;

verus! {

/// A memory to record.
#[derive(Debug)]
pub struct RecordOptions {
    /// The identifier, where the caller chooses it.
    pub id: Option<String>,
    pub kind: MemoryKind,
    pub title: String,
    pub body: String,
    pub tags: Option<String>,
    /// The memory that this one takes the place of.
    pub supersedes_id: Option<String>,
    pub session_id: Option<String>,
    /// The components of the embedding, [`EMBEDDING_DIM`] of them, each in
    /// decimal notation.
    pub embedding: Option<Vec<String>>,
}

/// The value of a [`RecordOptions`].
#[verifier::ext_equal]
pub ghost struct RecordView {
    pub id: Option<Seq<char>>,
    pub kind: MemoryKind,
    pub title: Seq<char>,
    pub body: Seq<char>,
    pub tags: Option<Seq<char>>,
    pub supersedes_id: Option<Seq<char>>,
    pub session_id: Option<Seq<char>>,
    pub embedding: Option<Seq<Seq<char>>>,
}

impl View for RecordOptions {
    type V = RecordView;

    open spec fn view(&self) -> RecordView {
        RecordView {
            id: opt_text(self.id),
            kind: self.kind,
            title: self.title@,
            body: self.body@,
            tags: opt_text(self.tags),
            supersedes_id: opt_text(self.supersedes_id),
            session_id: opt_text(self.session_id),
            embedding: match self.embedding {
                Some(parts) => Some(texts(parts@)),
                None => None,
            },
        }
    }
}

/// Why the graph refuses a request.
#[derive(Debug)]
pub enum StoreError {
    /// The memory to supersede does not exist.
    SupersededMissing { id: String },
    /// The identifier of the memory to record is taken.
    RecordRejected,
    /// The embedding has not the number of components that embeddings have.
    EmbeddingRejected,
    /// The identifier made for a learning is taken.
    LearningRejected,
    /// The source of the edge does not exist.
    SourceMissing { id: String },
    /// The target of the edge does not exist.
    TargetMissing { id: String },
    /// The memory does not exist.
    NotFound { id: String },
    /// The rows are no graph: an identifier or an edge occurs twice.
    InvalidRows,
}

/// The value of a [`StoreError`].
#[verifier::ext_equal]
pub ghost enum ErrorView {
    SupersededMissing { id: Seq<char> },
    RecordRejected,
    EmbeddingRejected,
    LearningRejected,
    SourceMissing { id: Seq<char> },
    TargetMissing { id: Seq<char> },
    NotFound { id: Seq<char> },
    InvalidRows,
}

impl View for StoreError {
    type V = ErrorView;

    open spec fn view(&self) -> ErrorView {
        match self {
            StoreError::SupersededMissing { id } => ErrorView::SupersededMissing { id: id@ },
            StoreError::RecordRejected => ErrorView::RecordRejected,
            StoreError::EmbeddingRejected => ErrorView::EmbeddingRejected,
            StoreError::LearningRejected => ErrorView::LearningRejected,
            StoreError::SourceMissing { id } => ErrorView::SourceMissing { id: id@ },
            StoreError::TargetMissing { id } => ErrorView::TargetMissing { id: id@ },
            StoreError::NotFound { id } => ErrorView::NotFound { id: id@ },
            StoreError::InvalidRows => ErrorView::InvalidRows,
        }
    }
}

impl ErrorView {
    /// What a user is told of the error.
    pub open spec fn text(self) -> Seq<char> {
        match self {
            ErrorView::SupersededMissing { id } => "Target supersedes_id '"@ + id
                + "' does not exist"@,
            ErrorView::RecordRejected => "Failed to insert memory record"@,
            ErrorView::EmbeddingRejected =>
                "Failed to insert vector embedding into memories_vec"@,
            ErrorView::LearningRejected => "Failed to insert consolidated session learning"@,
            ErrorView::SourceMissing { id } => "Source entity '"@ + id + "' not found"@,
            ErrorView::TargetMissing { id } => "Target entity '"@ + id + "' not found"@,
            ErrorView::NotFound { id } => "Memory '"@ + id + "' not found"@,
            ErrorView::InvalidRows => "The stored memories and relations are inconsistent"@,
        }
    }
}

/// `before`, then `id`, then `after`.
fn quoted(before: &str, id: &str, after: &str) -> (res: String)
    ensures
        res@ == before@ + id@ + after@,
{
    let mut res = before.to_owned();
    res.append(id);
    res.append(after);
    res
}

impl StoreError {
    /// What a user is told of the error.
    pub fn message(&self) -> (res: String)
        ensures
            res@ == self@.text(),
    {
        match self {
            StoreError::SupersededMissing { id } => quoted(
                "Target supersedes_id '",
                id.as_str(),
                "' does not exist",
            ),
            StoreError::RecordRejected => "Failed to insert memory record".to_owned(),
            StoreError::EmbeddingRejected =>
                "Failed to insert vector embedding into memories_vec".to_owned(),
            StoreError::LearningRejected =>
                "Failed to insert consolidated session learning".to_owned(),
            StoreError::SourceMissing { id } => quoted(
                "Source entity '",
                id.as_str(),
                "' not found",
            ),
            StoreError::TargetMissing { id } => quoted(
                "Target entity '",
                id.as_str(),
                "' not found",
            ),
            StoreError::NotFound { id } => quoted("Memory '", id.as_str(), "' not found"),
            StoreError::InvalidRows =>
                "The stored memories and relations are inconsistent".to_owned(),
        }
    }
}

/// The values of changes.
pub open spec fn change_rows(changes: Seq<Change>) -> Seq<ChangeView> {
    changes.map_values(|c: Change| c@)
}

impl View for ExportData {
    type V = Tables;

    open spec fn view(&self) -> Tables {
        Tables {
            memories: memory_rows(self.memories@),
            relations: relation_rows(self.relations@),
        }
    }
}

/// The graph, with the changes made to it that are not stored yet.
pub struct MemoryStore {
    memories: Vec<Memory>,
    relations: Vec<MemoryRelation>,
    journal: Vec<Change>,
}

impl View for MemoryStore {
    type V = Tables;

    closed spec fn view(&self) -> Tables {
        Tables { memories: memory_rows(self.memories@), relations: relation_rows(self.relations@) }
    }
}

/// The store took the changes `cs` to its tables and to its journal.
pub open spec fn committed(old: MemoryStore, new: MemoryStore, cs: Seq<ChangeView>) -> bool {
    &&& new@ == replay(old@, cs)
    &&& new.pending() == old.pending() + cs
    &&& new.valid()
}

impl MemoryStore {
    /// What holds of every store: identifiers are unique, so are edges, and no
    /// edge dangles.
    pub open spec fn valid(&self) -> bool {
        self@.valid()
    }

    /// The changes that are not stored yet, oldest first.
    pub closed spec fn pending(&self) -> Seq<ChangeView> {
        change_rows(self.journal@)
    }

    /// An empty graph.
    pub fn new() -> (res: MemoryStore)
        ensures
            res@ == (Tables { memories: Seq::empty(), relations: Seq::empty() }),
            res.pending() == Seq::<ChangeView>::empty(),
            res.valid(),
    {
        let res = MemoryStore { memories: Vec::new(), relations: Vec::new(), journal: Vec::new() };
        proof {
            assert(res@.memories =~= Seq::empty());
            assert(res@.relations =~= Seq::empty());
            assert(res.pending() =~= Seq::empty());
        }
        res
    }

    /// The graph with the given rows, without the edges that dangle, unless an
    /// identifier or an edge occurs twice.
    pub fn load(data: ExportData) -> (res: Result<MemoryStore, StoreError>)
        ensures
            match res {
                Ok(store) => anchored(data@).valid() && store@ == anchored(data@)
                    && store.pending() == Seq::<ChangeView>::empty() && store.valid(),
                Err(e) => !anchored(data@).valid() && e@ == ErrorView::InvalidRows,
            },
    {
        let ghost rows = data@;
        let mut i: usize = 0;
        while i < data.memories.len()
            invariant
                i <= data.memories@.len(),
                rows == data@,
                unique_ids(rows.memories.take(i as int)),
            decreases data.memories@.len() - i,
        {
            let mut j: usize = 0;
            while j < i
                invariant
                    j <= i < data.memories@.len(),
                    rows == data@,
                    forall|k: int|
                        0 <= k < j ==> (#[trigger] rows.memories[k]).id
                            != rows.memories[i as int].id,
                decreases i - j,
            {
                if data.memories[j].id == data.memories[i].id {
                    proof {
                        assert(rows.memories[j as int].id == rows.memories[i as int].id);
                    }
                    return Err(StoreError::InvalidRows);
                }
                j += 1;
            }
            proof {
                let next = rows.memories.take(i + 1);
                assert forall|a: int, b: int| 0 <= a < b < i + 1 implies (#[trigger] next[a]).id
                    != (#[trigger] next[b]).id by {
                    if b < i {
                        let front = rows.memories.take(i as int);
                        assert(front[a].id != front[b].id);
                    } else {
                        assert(rows.memories[a].id != rows.memories[i as int].id);
                    }
                }
            }
            i += 1;
        }
        proof {
            assert(rows.memories.take(i as int) =~= rows.memories);
        }
        let relations = relations_anchored(&data.memories, &data.relations);
        let ghost kept = relation_rows(relations@);
        let mut i: usize = 0;
        while i < relations.len()
            invariant
                i <= relations@.len(),
                rows == data@,
                kept == relation_rows(relations@),
                kept == anchored(rows).relations,
                unique_edges(kept.take(i as int)),
            decreases relations@.len() - i,
        {
            let mut j: usize = 0;
            while j < i
                invariant
                    j <= i < relations@.len(),
                    rows == data@,
                    kept == relation_rows(relations@),
                    kept == anchored(rows).relations,
                    forall|k: int| 0 <= k < j ==> !same_edge(#[trigger] kept[k], kept[i as int]),
                decreases i - j,
            {
                if is_same_edge(&relations[j], &relations[i]) {
                    proof {
                        assert(same_edge(kept[j as int], kept[i as int]));
                    }
                    return Err(StoreError::InvalidRows);
                }
                j += 1;
            }
            proof {
                let next = kept.take(i + 1);
                assert forall|a: int, b: int| 0 <= a < b < i + 1 implies !same_edge(
                    #[trigger] next[a],
                    #[trigger] next[b],
                ) by {
                    if b < i {
                        let front = kept.take(i as int);
                        assert(!same_edge(front[a], front[b]));
                    } else {
                        assert(!same_edge(kept[a], kept[i as int]));
                    }
                }
            }
            i += 1;
        }
        proof {
            assert(kept.take(i as int) =~= kept);
            lemma_anchored(rows);
        }
        let res = MemoryStore { memories: data.memories, relations, journal: Vec::new() };
        proof {
            assert(res.pending() =~= Seq::<ChangeView>::empty());
        }
        Ok(res)
    }

    /// Hands out the changes that are not stored yet, oldest first.
    pub fn take_changes(&mut self) -> (res: Vec<Change>)
        ensures
            change_rows(res@) == old(self).pending(),
            final(self).pending() == Seq::<ChangeView>::empty(),
            final(self)@ == old(self)@,
    {
        let mut res: Vec<Change> = Vec::new();
        std::mem::swap(&mut res, &mut self.journal);
        proof {
            assert(self.pending() =~= Seq::<ChangeView>::empty());
        }
        res
    }

    /// Makes one change and keeps it for storing.
    fn apply(&mut self, change: Change)
        requires
            old(self).valid(),
            admissible(old(self)@, change@),
        ensures
            final(self)@ == apply(old(self)@, change@),
            final(self).pending() == old(self).pending().push(change@),
            final(self).valid(),
    {
        let ghost before = self@;
        match &change {
            Change::Insert { memory } => {
                self.memories.push(memory.clone());
                proof {
                    assert(self@.memories =~= before.memories.push(memory@));
                }
            },
            Change::SetStatus { id, status, at } => {
                let n: usize = self.memories.len();
                let mut i: usize = 0;
                let ghost f = |m: MemoryView|
                    if m.id == id@ {
                        MemoryView { status: *status, updated_at: at@, ..m }
                    } else {
                        m
                    };
                while i < n
                    invariant
                        i <= n,
                        n == self.memories@.len(),
                        n == before.memories.len(),
                        self.relations@ == old(self).relations@,
                        self.journal@ == old(self).journal@,
                        f == (|m: MemoryView|
                            if m.id == id@ {
                                MemoryView { status: *status, updated_at: at@, ..m }
                            } else {
                                m
                            }),
                        forall|k: int|
                            0 <= k < i ==> (#[trigger] self.memories@[k])@ == f(before.memories[k]),
                        forall|k: int|
                            i <= k < n ==> (#[trigger] self.memories@[k])@ == before.memories[k],
                    decreases n - i,
                {
                    if self.memories[i].id == *id {
                        let mut m = self.memories[i].clone();
                        m.status = *status;
                        m.updated_at = at.clone();
                        self.memories.set(i, m);
                    }
                    i += 1;
                }
                proof {
                    assert(self@.memories =~= before.memories.map_values(f));
                }
            },
            Change::Rewrite { id, status, body, at } => {
                let n: usize = self.memories.len();
                let mut i: usize = 0;
                let ghost f = |m: MemoryView|
                    if m.id == id@ {
                        MemoryView { status: *status, body: body@, updated_at: at@, ..m }
                    } else {
                        m
                    };
                while i < n
                    invariant
                        i <= n,
                        n == self.memories@.len(),
                        n == before.memories.len(),
                        self.relations@ == old(self).relations@,
                        self.journal@ == old(self).journal@,
                        f == (|m: MemoryView|
                            if m.id == id@ {
                                MemoryView { status: *status, body: body@, updated_at: at@, ..m }
                            } else {
                                m
                            }),
                        forall|k: int|
                            0 <= k < i ==> (#[trigger] self.memories@[k])@ == f(before.memories[k]),
                        forall|k: int|
                            i <= k < n ==> (#[trigger] self.memories@[k])@ == before.memories[k],
                    decreases n - i,
                {
                    if self.memories[i].id == *id {
                        let mut m = self.memories[i].clone();
                        m.status = *status;
                        m.body = body.clone();
                        m.updated_at = at.clone();
                        self.memories.set(i, m);
                    }
                    i += 1;
                }
                proof {
                    assert(self@.memories =~= before.memories.map_values(f));
                }
            },
            Change::Delete { id } => {
                self.memories = memories_except(&self.memories, id);
                self.relations = relations_off(&self.relations, id);
            },
            Change::PutRelation { relation } => {
                let mut rest = relations_other_than(&self.relations, relation);
                let ghost kept = relation_rows(rest@);
                rest.push(relation.clone());
                self.relations = rest;
                proof {
                    assert(self@.relations =~= kept.push(relation@));
                }
            },
            Change::PutEmbedding { id, vector } => {},
        }
        proof {
            assert(self@ =~= apply(before, change@));
            lemma_apply_valid(before, change@);
        }
        self.journal.push(change);
        proof {
            assert(self.pending() =~= old(self).pending().push(change@));
        }
    }
}

/// The store refused a request and is as it was.
pub open spec fn refused(old: MemoryStore, new: MemoryStore) -> bool {
    new@ == old@ && new.pending() == old.pending() && new.valid()
}

/// The identifier under which a memory is recorded: the one asked for, or one
/// made of the kind's prefix and eight lowercase hexadecimal digits.
pub open spec fn chosen_id(o: RecordView, id: Seq<char>) -> bool {
    match o.id {
        Some(asked) => id == asked,
        None => exists|short: Seq<char>|
            #[trigger] is_short_text(short) && id == generated_id(o.kind, short),
    }
}

/// A lowercase hexadecimal digit.
pub open spec fn lower_hex(c: char) -> bool {
    ('0' <= c && c <= '9') || ('a' <= c && c <= 'f')
}

/// Eight lowercase hexadecimal digits.
pub open spec fn is_short_text(s: Seq<char>) -> bool {
    s.len() == 8 && forall|i: int| 0 <= i < 8 ==> lower_hex(#[trigger] s[i])
}

/// Where the hyphens stand in a UUID.
pub open spec fn is_uuid_hyphen(i: int) -> bool {
    i == 8 || i == 13 || i == 18 || i == 23
}

/// `uuid::Uuid::new_v4` in the notation of its `Display`: 36 characters, of
/// which four are hyphens and the others lowercase hexadecimal digits. Which
/// digits is left to chance. It panics where the system offers no randomness.
#[verifier::external_body]
fn random_uuid() -> (res: String)
    ensures
        res@.len() == 36,
        forall|i: int|
            0 <= i < 36 ==> if is_uuid_hyphen(i) {
                #[trigger] res@[i] == '-'
            } else {
                lower_hex(res@[i])
            },
{
    uuid::Uuid::new_v4().to_string()
}

/// Eight random lowercase hexadecimal digits.
pub fn short_text() -> (res: String)
    ensures
        is_short_text(res@),
{
    let uuid = random_uuid();
    let res = uuid.as_str().substring_char(0, 8).to_owned();
    proof {
        assert forall|i: int| 0 <= i < 8 implies lower_hex(#[trigger] res@[i]) by {
            assert(res@[i] == uuid@[i]);
        }
    }
    res
}

/// The identifier made of a kind's prefix and a short text.
pub fn make_id(kind: MemoryKind, short: &str) -> (res: String)
    ensures
        res@ == generated_id(kind, short@),
{
    let mut res = kind.prefix().to_owned();
    res.append("-");
    res.append(short);
    res
}

/// An embedding as the database reads it: a JSON array of its components.
pub fn embedding_literal(parts: &Vec<String>) -> (res: String)
    ensures
        res@ == embedding_text(texts(parts@)),
{
    let mut res = "[".to_owned();
    let inner = join(parts, ",");
    res.append(inner.as_str());
    res.append("]");
    res
}

/// A request that is refused changes nothing.
pub proof fn lemma_refused_committed(old: MemoryStore, new: MemoryStore)
    requires
        old.valid(),
        refused(old, new),
    ensures
        committed(old, new, Seq::empty()),
{
    assert(old.pending() + Seq::<ChangeView>::empty() =~= old.pending());
}

/// A store that took the changes `cs` and then one more took them all.
proof fn lemma_one_more(
    old: MemoryStore,
    before: MemoryStore,
    after: MemoryStore,
    cs: Seq<ChangeView>,
    c: ChangeView,
)
    requires
        committed(old, before, cs),
        after@ == apply(before@, c),
        after.pending() == before.pending().push(c),
        after.valid(),
    ensures
        committed(old, after, cs.push(c)),
{
    lemma_replay_push(old@, cs, c);
    assert(old.pending() + cs.push(c) =~= (old.pending() + cs).push(c));
}

/// What recording under `id` does and returns.
pub open spec fn recorded(
    old: MemoryStore,
    new: MemoryStore,
    o: RecordView,
    id: Seq<char>,
    now: Seq<char>,
    res: Result<Memory, StoreError>,
) -> bool {
    match record_plan(old@, o, id, now) {
        Ok(cs) => committed(old, new, cs) && res is Ok && res->Ok_0@ == recorded_row(o, id, now),
        Err(e) => refused(old, new) && res is Err && res->Err_0@ == e,
    }
}

impl MemoryStore {
    /// Whether there is a memory `id`.
    pub fn contains(&self, id: &str) -> (res: bool)
        ensures
            res == has_id(self@.memories, id@),
    {
        contains_id(&self.memories, &id.to_owned())
    }

    /// Records a memory at the time `now`. Where it supersedes another, that one
    /// gets its new state and an edge from the new memory, or nothing happens.
    pub fn record_memory(&mut self, opts: RecordOptions, now: &str) -> (res: Result<
        Memory,
        StoreError,
    >)
        requires
            old(self).valid(),
        ensures
            exists|id: Seq<char>| #[trigger]
                chosen_id(opts@, id) && recorded(*old(self), *final(self), opts@, id, now@, res),
    {
        let ghost o = opts@;
        let id = match &opts.id {
            Some(id) => id.clone(),
            None => {
                let short = short_text();
                let id = make_id(opts.kind, short.as_str());
                proof {
                    assert(is_short_text(short@) && id@ == generated_id(o.kind, short@));
                }
                id
            },
        };
        let ghost id_text = id@;
        proof {
            assert(chosen_id(o, id_text));
        }
        self.record_memory_as(opts, id, now)
    }

    /// Records a memory under `id`, whatever the options say of the identifier.
    pub fn record_memory_as(&mut self, opts: RecordOptions, id: String, now: &str) -> (res: Result<
        Memory,
        StoreError,
    >)
        requires
            old(self).valid(),
        ensures
            recorded(*old(self), *final(self), opts@, id@, now@, res),
    {
        let ghost t = self@;
        let ghost o = opts@;
        if let Some(target) = &opts.supersedes_id {
            if !contains_id(&self.memories, target) {
                return Err(StoreError::SupersededMissing { id: target.clone() });
            }
        }
        if contains_id(&self.memories, &id) {
            return Err(StoreError::RecordRejected);
        }
        if let Some(parts) = &opts.embedding {
            if parts.len() != EMBEDDING_DIM {
                return Err(StoreError::EmbeddingRejected);
            }
        }
        let ghost mut cs: Seq<ChangeView> = Seq::empty();
        proof {
            lemma_refused_committed(*self, *self);
        }
        if let Some(target) = &opts.supersedes_id {
            let change = Change::SetStatus {
                id: target.clone(),
                status: MemoryStatus::Superseded,
                at: now.to_owned(),
            };
            let ghost view = change@;
            let ghost before = *self;
            self.apply(change);
            proof {
                lemma_one_more(*old(self), before, *self, cs, view);
                cs = cs.push(view);
                lemma_status_keeps_ids(t, view, target@);
                lemma_status_keeps_ids(t, view, id@);
            }
        }
        let ghost with_status = cs;
        let status = if opts.kind == MemoryKind::Ephemeral {
            MemoryStatus::Ephemeral
        } else {
            MemoryStatus::Active
        };
        let memory = Memory {
            id: id.clone(),
            kind: opts.kind,
            title: opts.title,
            body: opts.body,
            tags: opts.tags,
            status,
            session_id: opts.session_id,
            created_at: now.to_owned(),
            updated_at: now.to_owned(),
        };
        let change = Change::Insert { memory: memory.clone() };
        let ghost inserted = change@;
        let ghost before = *self;
        self.apply(change);
        proof {
            lemma_one_more(*old(self), before, *self, cs, inserted);
            cs = cs.push(inserted);
        }
        if let Some(target) = &opts.supersedes_id {
            proof {
                lemma_insert_has_id(before@, inserted, target@);
            }
            let change = Change::PutRelation {
                relation: MemoryRelation {
                    source_id: id.clone(),
                    target_id: target.clone(),
                    relation_type: RelationType::Supersedes,
                    created_at: now.to_owned(),
                },
            };
            let ghost view = change@;
            let ghost before = *self;
            self.apply(change);
            proof {
                lemma_one_more(*old(self), before, *self, cs, view);
                cs = cs.push(view);
            }
        }
        if let Some(parts) = &opts.embedding {
            let change = Change::PutEmbedding { id: id.clone(), vector: embedding_literal(parts) };
            let ghost view = change@;
            let ghost before = *self;
            self.apply(change);
            proof {
                lemma_one_more(*old(self), before, *self, cs, view);
                cs = cs.push(view);
            }
        }
        proof {
            assert(cs =~= record_plan(t, o, id@, now@)->Ok_0);
        }
        Ok(memory)
    }

    /// Links two memories at the time `now`; an edge with the same ends and type
    /// is replaced. The target of an edge that supersedes is marked as
    /// superseded.
    pub fn link_entities(
        &mut self,
        source_id: &str,
        target_id: &str,
        relation_type: RelationType,
        now: &str,
    ) -> (res: Result<(), StoreError>)
        requires
            old(self).valid(),
        ensures
            match link_plan(old(self)@, source_id@, target_id@, relation_type, now@) {
                Ok(cs) => committed(*old(self), *final(self), cs) && res is Ok,
                Err(e) => refused(*old(self), *final(self)) && res is Err && res->Err_0@ == e,
            },
    {
        let ghost t = self@;
        if !self.contains(source_id) {
            return Err(StoreError::SourceMissing { id: source_id.to_owned() });
        }
        if !self.contains(target_id) {
            return Err(StoreError::TargetMissing { id: target_id.to_owned() });
        }
        let status = match self.find(target_id) {
            Some(m) => m.status,
            None => MemoryStatus::Superseded,
        };
        proof {
            lemma_find(t.memories, target_id@);
        }
        let ghost mut cs: Seq<ChangeView> = Seq::empty();
        proof {
            lemma_refused_committed(*self, *self);
        }
        if relation_type == RelationType::Supersedes && status != MemoryStatus::Superseded {
            let change = Change::SetStatus {
                id: target_id.to_owned(),
                status: MemoryStatus::Superseded,
                at: now.to_owned(),
            };
            let ghost view = change@;
            let ghost before = *self;
            self.apply(change);
            proof {
                lemma_one_more(*old(self), before, *self, cs, view);
                cs = cs.push(view);
                lemma_status_keeps_ids(t, view, source_id@);
                lemma_status_keeps_ids(t, view, target_id@);
            }
        }
        let change = Change::PutRelation {
            relation: MemoryRelation {
                source_id: source_id.to_owned(),
                target_id: target_id.to_owned(),
                relation_type,
                created_at: now.to_owned(),
            },
        };
        let ghost view = change@;
        let ghost before = *self;
        self.apply(change);
        proof {
            lemma_one_more(*old(self), before, *self, cs, view);
            assert(cs.push(view) =~= link_plan(
                t,
                source_id@,
                target_id@,
                relation_type,
                now@,
            )->Ok_0);
        }
        Ok(())
    }

    /// The memory `id`.
    pub fn find(&self, id: &str) -> (res: Option<&Memory>)
        ensures
            match find(self@.memories, id@) {
                Some(m) => res is Some && res->0@ == m,
                None => res is None,
            },
    {
        find_row(&self.memories, &id.to_owned())
    }

    /// Marks a memory as resolved at the time `now` and appends the note, if
    /// there is one, to its body.
    pub fn resolve_memory(&mut self, id: &str, note: Option<&str>, now: &str) -> (res: Result<
        Memory,
        StoreError,
    >)
        requires
            old(self).valid(),
        ensures
            match resolve_plan(old(self)@, id@, str_text(note), now@) {
                Ok(cs) => committed(*old(self), *final(self), cs) && res is Ok && res->Ok_0@
                    == resolved_row(find(old(self)@.memories, id@)->0, str_text(note), now@),
                Err(e) => refused(*old(self), *final(self)) && res is Err && res->Err_0@ == e,
            },
    {
        let ghost t = self@;
        let mut memory = match self.find(id) {
            Some(memory) => memory.clone(),
            None => {
                return Err(StoreError::NotFound { id: id.to_owned() });
            },
        };
        if let Some(note) = note {
            memory.body.append("\n\n[Resolved]: ");
            memory.body.append(note);
        }
        memory.status = MemoryStatus::Resolved;
        memory.updated_at = now.to_owned();
        let change = Change::Rewrite {
            id: id.to_owned(),
            status: MemoryStatus::Resolved,
            body: memory.body.clone(),
            at: now.to_owned(),
        };
        let ghost view = change@;
        self.apply(change);
        proof {
            let none = Seq::<ChangeView>::empty();
            lemma_refused_committed(*old(self), *old(self));
            lemma_one_more(*old(self), *old(self), *self, none, view);
            assert(none.push(view) =~= seq![view]);
        }
        Ok(memory)
    }
}

/// What came of consolidating a session.
#[derive(Debug, Clone)]
pub struct ConsolidationResult {
    pub session_id: String,
    pub learnings_recorded: usize,
    pub ephemeral_purged: usize,
    pub ephemeral_archived: usize,
    pub recorded_ids: Vec<String>,
}

/// The value of a [`ConsolidationResult`].
#[verifier::ext_equal]
pub ghost struct ConsolidationView {
    pub session_id: Seq<char>,
    pub learnings_recorded: nat,
    pub ephemeral_purged: nat,
    pub ephemeral_archived: nat,
    pub recorded_ids: Seq<Seq<char>>,
}

impl View for ConsolidationResult {
    type V = ConsolidationView;

    open spec fn view(&self) -> ConsolidationView {
        ConsolidationView {
            session_id: self.session_id@,
            learnings_recorded: self.learnings_recorded as nat,
            ephemeral_purged: self.ephemeral_purged as nat,
            ephemeral_archived: self.ephemeral_archived as nat,
            recorded_ids: texts(self.recorded_ids@),
        }
    }
}

/// The values of learnings.
pub open spec fn learning_rows(learnings: Seq<SessionLearning>) -> Seq<LearningView> {
    learnings.map_values(|l: SessionLearning| l@)
}

/// How a consolidation is summed up.
pub open spec fn consolidation_summary(
    t: Tables,
    session: Seq<char>,
    learnings: Seq<LearningView>,
    ids: Seq<Seq<char>>,
    purge: bool,
    now: Seq<char>,
) -> ConsolidationView {
    let notes = scratch(t.memories, session).len();
    ConsolidationView {
        session_id: session,
        learnings_recorded: learnings.len(),
        ephemeral_purged: if purge {
            notes
        } else {
            0
        },
        ephemeral_archived: if purge {
            0
        } else {
            notes
        },
        recorded_ids: ids,
    }
}

/// What consolidating with the given short texts does and returns.
pub open spec fn consolidated(
    old: MemoryStore,
    new: MemoryStore,
    session: Seq<char>,
    learnings: Seq<LearningView>,
    shorts: Seq<Seq<char>>,
    purge: bool,
    now: Seq<char>,
    res: Result<ConsolidationResult, StoreError>,
) -> bool {
    let ids = learning_ids(learnings, shorts);
    match consolidate_plan(old@, session, learnings, ids, purge, now) {
        Ok(cs) => committed(old, new, cs) && res is Ok && res->Ok_0@ == consolidation_summary(
            old@,
            session,
            learnings,
            ids,
            purge,
            now,
        ),
        Err(e) => refused(old, new) && res is Err && res->Err_0@ == e,
    }
}

/// A short text of eight hexadecimal digits for each of `n` learnings.
pub open spec fn short_texts(shorts: Seq<Seq<char>>, n: nat) -> bool {
    shorts.len() == n && forall|i: int| 0 <= i < n ==> is_short_text(#[trigger] shorts[i])
}

/// `n` random short texts.
pub fn draw_short_texts(n: usize) -> (res: Vec<String>)
    ensures
        short_texts(texts(res@), n as nat),
{
    let mut res: Vec<String> = Vec::new();
    while res.len() < n
        invariant
            res@.len() <= n,
            forall|i: int| 0 <= i < res@.len() ==> is_short_text(#[trigger] texts(res@)[i]),
        decreases n - res@.len(),
    {
        let ghost before = texts(res@);
        let short = short_text();
        res.push(short);
        proof {
            assert forall|i: int| 0 <= i < res@.len() implies is_short_text(
                #[trigger] texts(res@)[i],
            ) by {
                if i < before.len() {
                    assert(texts(res@)[i] == before[i]);
                }
            }
        }
    }
    res
}

/// Deletions by identifier.
pub open spec fn deletions_of(ids: Seq<Seq<char>>) -> Seq<ChangeView> {
    ids.map_values(|id: Seq<char>| ChangeView::Delete { id: id })
}

/// Archivings by identifier.
pub open spec fn archivings_of(ids: Seq<Seq<char>>, now: Seq<char>) -> Seq<ChangeView> {
    ids.map_values(
        |id: Seq<char>|
            ChangeView::SetStatus { id: id, status: MemoryStatus::Resolved, at: now },
    )
}

/// The identifiers of rows.
pub open spec fn row_ids(rows: Seq<MemoryView>) -> Seq<Seq<char>> {
    rows.map_values(|m: MemoryView| m.id)
}

impl MemoryStore {
    /// Consolidates a session at the time `now`: its learnings become memories
    /// with new identifiers, and the scratch notes that it had are deleted or,
    /// without `purge_ephemeral`, put away as resolved. All of it happens or
    /// nothing.
    pub fn consolidate_session(
        &mut self,
        session_id: &str,
        learnings: Vec<SessionLearning>,
        purge_ephemeral: bool,
        now: &str,
    ) -> (res: Result<ConsolidationResult, StoreError>)
        requires
            old(self).valid(),
        ensures
            exists|shorts: Seq<Seq<char>>| #[trigger]
                short_texts(shorts, learnings@.len()) && consolidated(
                    *old(self),
                    *final(self),
                    session_id@,
                    learning_rows(learnings@),
                    shorts,
                    purge_ephemeral,
                    now@,
                    res,
                ),
    {
        let shorts = draw_short_texts(learnings.len());
        let ghost drawn = texts(shorts@);
        proof {
            assert(short_texts(drawn, learnings@.len()));
        }
        self.consolidate_session_as(session_id, learnings, &shorts, purge_ephemeral, now)
    }

    /// Consolidates a session with the given short texts in the new identifiers.
    pub fn consolidate_session_as(
        &mut self,
        session_id: &str,
        learnings: Vec<SessionLearning>,
        shorts: &Vec<String>,
        purge_ephemeral: bool,
        now: &str,
    ) -> (res: Result<ConsolidationResult, StoreError>)
        requires
            old(self).valid(),
            shorts@.len() == learnings@.len(),
        ensures
            consolidated(
                *old(self),
                *final(self),
                session_id@,
                learning_rows(learnings@),
                texts(shorts@),
                purge_ephemeral,
                now@,
                res,
            ),
    {
        let ghost t = self@;
        let ghost rows = learning_rows(learnings@);
        let ghost ids = learning_ids(rows, texts(shorts@));
        let notes = self.scratch_ids(session_id);
        let ghost found = scratch(t.memories, session_id@);
        let n: usize = learnings.len();
        let mut made: Vec<String> = Vec::new();
        while made.len() < n
            invariant
                made@.len() <= n,
                n == learnings@.len(),
                n == shorts@.len(),
                rows == learning_rows(learnings@),
                ids == learning_ids(rows, texts(shorts@)),
                texts(made@) == ids.take(made@.len() as int),
            decreases n - made@.len(),
        {
            let i: usize = made.len();
            let id = make_id(learnings[i].kind, shorts[i].as_str());
            made.push(id);
            proof {
                assert(id@ == ids[i as int]);
                assert(texts(made@) =~= ids.take(i + 1));
            }
        }
        proof {
            assert(ids.take(n as int) =~= ids);
        }
        let mut i: usize = 0;
        while i < n
            invariant
                i <= n,
                n == made@.len(),
                texts(made@) == ids,
                t == self@,
                t == old(self)@,
                rows == learning_rows(learnings@),
                ids == learning_ids(rows, texts(shorts@)),
                self.valid(),
                self.pending() == old(self).pending(),
                forall|k: int|
                    0 <= k < i ==> !has_id(t.memories, #[trigger] ids[k]) && !ids.take(k).contains(
                        ids[k],
                    ),
            decreases n - i,
        {
            let ghost id = ids[i as int];
            proof {
                assert(id == made@[i as int]@);
            }
            if contains_id(&self.memories, &made[i]) || occurs_before(&made, i) {
                proof {
                    assert(has_id(t.memories, ids[i as int]) || ids.take(i as int).contains(
                        ids[i as int],
                    ));
                    assert(!fresh_ids(t.memories, ids));
                }
                return Err(StoreError::LearningRejected);
            }
            i += 1;
        }
        let ghost inserts = learning_inserts(rows, ids, session_id@, now@);
        let mut i: usize = 0;
        proof {
            lemma_refused_committed(*old(self), *self);
            assert(inserts.take(0) =~= Seq::<ChangeView>::empty());
        }
        while i < n
            invariant
                i <= n,
                n == made@.len(),
                n == learnings@.len(),
                texts(made@) == ids,
                rows == learning_rows(learnings@),
                ids.len() == n,
                fresh_ids(t.memories, ids),
                inserts == learning_inserts(rows, ids, session_id@, now@),
                t == old(self)@,
                committed(*old(self), *self, inserts.take(i as int)),
            decreases n - i,
        {
            let memory = Memory {
                id: made[i].clone(),
                kind: learnings[i].kind,
                title: learnings[i].title.clone(),
                body: learnings[i].body.clone(),
                tags: clone_opt(&learnings[i].tags),
                status: MemoryStatus::Active,
                session_id: Some(session_id.to_owned()),
                created_at: now.to_owned(),
                updated_at: now.to_owned(),
            };
            let change = Change::Insert { memory };
            let ghost view = change@;
            proof {
                assert(memory@.id == ids[i as int]);
                assert(rows[i as int] == learnings@[i as int]@);
                assert(view == inserts[i as int]);
                lemma_replay_inserts(t, rows, ids, session_id@, now@, i as int);
                assert(!has_id(self@.memories, ids[i as int])) by {
                    if has_id(self@.memories, ids[i as int]) {
                        let k = choose|k: int|
                            0 <= k < self@.memories.len() && (#[trigger] self@.memories[k]).id
                                == ids[i as int];
                        let m = t.memories.len() as int;
                        if k < m {
                            assert(t.memories[k].id == ids[i as int]);
                        } else {
                            assert(self@.memories[k].id == ids[k - m]);
                            assert(ids.take(i as int)[k - m] == ids[i as int]);
                        }
                    }
                }
            }
            let ghost before = *self;
            self.apply(change);
            proof {
                lemma_one_more(*old(self), before, *self, inserts.take(i as int), view);
                assert(inserts.take(i as int).push(view) =~= inserts.take(i + 1));
            }
            i += 1;
        }
        proof {
            assert(inserts.take(n as int) =~= inserts);
        }
        let mut ephemeral_purged: usize = 0;
        let mut ephemeral_archived: usize = 0;
        if purge_ephemeral {
            ephemeral_purged = notes.len();
            self.delete_all(&notes);
            proof {
                let cleanup = deletions(found);
                assert(deletions_of(texts(notes@)) =~= cleanup);
                lemma_replay_concat(t, inserts, cleanup);
                assert(old(self).pending() + (inserts + cleanup) =~= (old(self).pending() + inserts)
                    + cleanup);
            }
        } else {
            ephemeral_archived = notes.len();
            self.archive_all(&notes, now);
            proof {
                let cleanup = archivings(found, now@);
                assert(archivings_of(texts(notes@), now@) =~= cleanup);
                lemma_replay_concat(t, inserts, cleanup);
                assert(old(self).pending() + (inserts + cleanup) =~= (old(self).pending() + inserts)
                    + cleanup);
            }
        }
        proof {
            assert(texts(notes@).len() == found.len());
        }
        Ok(
            ConsolidationResult {
                session_id: session_id.to_owned(),
                learnings_recorded: made.len(),
                ephemeral_purged,
                ephemeral_archived,
                recorded_ids: made,
            },
        )
    }

    /// Deletes the ephemeral memories made before `cutoff`, and says how many.
    pub fn purge_expired_ephemeral(&mut self, cutoff: &str) -> (res: usize)
        requires
            old(self).valid(),
        ensures
            committed(*old(self), *final(self), deletions(expired(old(self)@.memories, cutoff@))),
            res == expired(old(self)@.memories, cutoff@).len(),
    {
        let ghost found = expired(self@.memories, cutoff@);
        let ids = self.expired_ids(cutoff);
        self.delete_all(&ids);
        proof {
            assert(deletions_of(texts(ids@)) =~= deletions(found));
            assert(texts(ids@).len() == found.len());
        }
        ids.len()
    }

    /// The identifiers of the session's scratch notes.
    fn scratch_ids(&self, session_id: &str) -> (res: Vec<String>)
        ensures
            texts(res@) == row_ids(scratch(self@.memories, session_id@)),
    {
        let session = session_id.to_owned();
        let ghost rows = self@.memories;
        let ghost keep = |m: MemoryView| is_scratch(m, session_id@);
        let mut res: Vec<String> = Vec::new();
        let mut i: usize = 0;
        proof {
            assert(texts(res@) =~= row_ids(rows.take(0).filter(keep)));
        }
        while i < self.memories.len()
            invariant
                i <= self.memories@.len(),
                rows == self@.memories,
                session@ == session_id@,
                keep == (|m: MemoryView| is_scratch(m, session_id@)),
                texts(res@) == row_ids(rows.take(i as int).filter(keep)),
            decreases self.memories@.len() - i,
        {
            proof {
                lemma_filter_take(rows, i as int, keep);
                assert(rows[i as int] == self.memories@[i as int]@);
            }
            let m = &self.memories[i];
            let of_session = match &m.session_id {
                Some(s) => *s == session,
                None => false,
            };
            if of_session && (m.status == MemoryStatus::Ephemeral || m.kind
                == MemoryKind::Ephemeral) {
                let ghost before = rows.take(i as int).filter(keep);
                let ghost ids = texts(res@);
                res.push(m.id.clone());
                proof {
                    assert(texts(res@) =~= ids.push(rows[i as int].id));
                    assert(row_ids(before.push(rows[i as int])) =~= row_ids(before).push(
                        rows[i as int].id,
                    ));
                }
            }
            i += 1;
        }
        proof {
            assert(rows.take(i as int) =~= rows);
        }
        res
    }

    /// The identifiers of the ephemeral memories made before `cutoff`.
    fn expired_ids(&self, cutoff: &str) -> (res: Vec<String>)
        ensures
            texts(res@) == row_ids(expired(self@.memories, cutoff@)),
    {
        let ghost rows = self@.memories;
        let ghost keep = |m: MemoryView| is_expired(m, cutoff@);
        let mut res: Vec<String> = Vec::new();
        let mut i: usize = 0;
        proof {
            assert(texts(res@) =~= row_ids(rows.take(0).filter(keep)));
        }
        while i < self.memories.len()
            invariant
                i <= self.memories@.len(),
                rows == self@.memories,
                keep == (|m: MemoryView| is_expired(m, cutoff@)),
                texts(res@) == row_ids(rows.take(i as int).filter(keep)),
            decreases self.memories@.len() - i,
        {
            proof {
                lemma_filter_take(rows, i as int, keep);
                assert(rows[i as int] == self.memories@[i as int]@);
            }
            let m = &self.memories[i];
            if m.status == MemoryStatus::Ephemeral && is_text_before(m.created_at.as_str(), cutoff) {
                let ghost before = rows.take(i as int).filter(keep);
                let ghost ids = texts(res@);
                res.push(m.id.clone());
                proof {
                    assert(texts(res@) =~= ids.push(rows[i as int].id));
                    assert(row_ids(before.push(rows[i as int])) =~= row_ids(before).push(
                        rows[i as int].id,
                    ));
                }
            }
            i += 1;
        }
        proof {
            assert(rows.take(i as int) =~= rows);
        }
        res
    }

    /// Deletes the memories `ids`.
    fn delete_all(&mut self, ids: &Vec<String>)
        requires
            old(self).valid(),
        ensures
            committed(*old(self), *final(self), deletions_of(texts(ids@))),
    {
        let ghost cs = deletions_of(texts(ids@));
        let mut i: usize = 0;
        proof {
            lemma_refused_committed(*self, *self);
            assert(cs.take(0) =~= Seq::<ChangeView>::empty());
        }
        while i < ids.len()
            invariant
                i <= ids@.len(),
                cs == deletions_of(texts(ids@)),
                committed(*old(self), *self, cs.take(i as int)),
            decreases ids@.len() - i,
        {
            let ghost before = *self;
            self.apply(Change::Delete { id: ids[i].clone() });
            proof {
                lemma_one_more(*old(self), before, *self, cs.take(i as int), cs[i as int]);
                assert(cs.take(i as int).push(cs[i as int]) =~= cs.take(i + 1));
            }
            i += 1;
        }
        proof {
            assert(cs.take(i as int) =~= cs);
        }
    }

    /// Puts the memories `ids` away as resolved.
    fn archive_all(&mut self, ids: &Vec<String>, now: &str)
        requires
            old(self).valid(),
        ensures
            committed(*old(self), *final(self), archivings_of(texts(ids@), now@)),
    {
        let ghost cs = archivings_of(texts(ids@), now@);
        let mut i: usize = 0;
        proof {
            lemma_refused_committed(*self, *self);
            assert(cs.take(0) =~= Seq::<ChangeView>::empty());
        }
        while i < ids.len()
            invariant
                i <= ids@.len(),
                cs == archivings_of(texts(ids@), now@),
                committed(*old(self), *self, cs.take(i as int)),
            decreases ids@.len() - i,
        {
            let ghost before = *self;
            self.apply(
                Change::SetStatus {
                    id: ids[i].clone(),
                    status: MemoryStatus::Resolved,
                    at: now.to_owned(),
                },
            );
            proof {
                lemma_one_more(*old(self), before, *self, cs.take(i as int), cs[i as int]);
                assert(cs.take(i as int).push(cs[i as int]) =~= cs.take(i + 1));
            }
            i += 1;
        }
        proof {
            assert(cs.take(i as int) =~= cs);
        }
    }
}

/// Whether the identifier at `n` occurs before it.
fn occurs_before(ids: &Vec<String>, n: usize) -> (res: bool)
    requires
        n < ids@.len(),
    ensures
        res == texts(ids@).take(n as int).contains(texts(ids@)[n as int]),
{
    let mut i: usize = 0;
    while i < n
        invariant
            i <= n < ids@.len(),
            forall|k: int| 0 <= k < i ==> (#[trigger] texts(ids@)[k]) != texts(ids@)[n as int],
        decreases n - i,
    {
        if ids[i] == ids[n] {
            proof {
                assert(texts(ids@).take(n as int)[i as int] == texts(ids@)[n as int]);
            }
            return true;
        }
        i += 1;
    }
    proof {
        let head = texts(ids@).take(n as int);
        if head.contains(texts(ids@)[n as int]) {
            let k = choose|k: int| 0 <= k < head.len() && head[k] == texts(ids@)[n as int];
            assert(texts(ids@)[k] == texts(ids@)[n as int]);
        }
    }
    false
}

/// The value of a memory found with its distance and its neighbours.
pub open spec fn found_row(f: (Memory, u64, Vec<RelatedEntity>)) -> SearchResultView {
    SearchResultView { memory: f.0@, rank: f.1, relations: related_rows(f.2@) }
}

/// The values of memories found with their distances and their neighbours.
pub open spec fn found_rows(found: Seq<(Memory, u64, Vec<RelatedEntity>)>) -> Seq<SearchResultView> {
    found.map_values(|f: (Memory, u64, Vec<RelatedEntity>)| found_row(f))
}

/// A copy of neighbours.
fn clone_related(related: &Vec<RelatedEntity>) -> (res: Vec<RelatedEntity>)
    ensures
        res@ == related@,
{
    let mut res: Vec<RelatedEntity> = Vec::new();
    while res.len() < related.len()
        invariant
            res@.len() <= related@.len(),
            res@ == related@.take(res@.len() as int),
        decreases related@.len() - res@.len(),
    {
        let i: usize = res.len();
        res.push(related[i].clone());
        proof {
            assert(res@ =~= related@.take(i + 1));
        }
    }
    proof {
        assert(related@.take(related@.len() as int) =~= related@);
    }
    res
}

/// The numbers of edges by type, for the types that occur, by name.
pub open spec fn type_counts(relations: Seq<RelationView>) -> Seq<(Seq<char>, i64)> {
    let all = seq![
        RelationType::Blocks,
        RelationType::DependsOn,
        RelationType::References,
        RelationType::Supersedes,
    ];
    all.filter(|r: RelationType| type_count(relations, r) > 0).map_values(
        |r: RelationType| (r.text(), count_value(type_count(relations, r))),
    )
}

/// The values of named counts.
pub open spec fn named_counts(counts: Seq<(String, i64)>) -> Seq<(Seq<char>, i64)> {
    counts.map_values(|c: (String, i64)| (c.0@, c.1))
}

impl MemoryStore {
    /// The neighbours of the memory `id`, along its outgoing edges first.
    pub fn get_memory_relations(&self, id: &str) -> (res: Vec<RelatedEntity>)
        ensures
            related_rows(res@) == related(self@, id@),
    {
        related_of(&self.memories, &self.relations, id)
    }

    /// The memory `id` with its neighbours.
    pub fn get_memory(&self, id: &str) -> (res: Option<(Memory, Vec<RelatedEntity>)>)
        ensures
            match find(self@.memories, id@) {
                Some(m) => res matches Some(found) && found.0@ == m && related_rows(found.1@)
                    == related(self@, id@),
                None => res is None,
            },
    {
        match self.find(id) {
            Some(memory) => Some((memory.clone(), self.get_memory_relations(id))),
            None => None,
        }
    }

    /// The latest `limit` memories that pass the filters.
    pub fn list_memories(
        &self,
        status: Option<MemoryStatus>,
        kind: Option<MemoryKind>,
        limit: usize,
    ) -> (res: Vec<Memory>)
        ensures
            memory_rows(res@) == listing(self@.memories, status, kind, limit as nat),
    {
        list_rows(&self.memories, status, kind, limit)
    }

    /// The latest `limit` tasks and blockers that are active and that no active
    /// memory blocks.
    pub fn list_ready(&self, limit: usize) -> (res: Vec<Memory>)
        ensures
            memory_rows(res@) == ready_listing(self@, limit as nat),
    {
        ready_rows(&self.memories, &self.relations, limit)
    }

    /// Searches the graph: `hits` is what the text index found for
    /// [`index_query`](crate::search::index_query), best first. Where the query
    /// has no terms the latest memories are returned.
    pub fn search_memory(&self, opts: SearchOptions, hits: &Vec<Hit>) -> (res: Vec<
        MemorySearchResult,
    >)
        ensures
            result_rows(res@) == search_results(self@, opts@, hit_rows(hits@)),
    {
        match index_query(&opts) {
            None => recent_results(&self.memories, &self.relations, &opts),
            Some(_) => matched_results(
                &self.memories,
                &self.relations,
                hits,
                opts.include_resolved,
                opts.kind,
                clamp_limit(opts.limit),
            ),
        }
    }

    /// Searches the graph by similarity: `hits` is what the vector index found,
    /// nearest first. Each memory comes with its distance, as the bits of a
    /// binary64 number, and its neighbours.
    pub fn search_vector(&self, hits: &Vec<Hit>, limit: usize) -> (res: Vec<
        (Memory, u64, Vec<RelatedEntity>),
    >)
        ensures
            found_rows(res@) == nearest(self@, hit_rows(hits@), limit as nat),
    {
        let results = self.nearest_results(hits, limit);
        let ghost rows = result_rows(results@);
        let mut res: Vec<(Memory, u64, Vec<RelatedEntity>)> = Vec::new();
        let mut i: usize = 0;
        while i < results.len()
            invariant
                i <= results@.len(),
                rows == result_rows(results@),
                found_rows(res@) == rows.take(i as int),
            decreases results@.len() - i,
        {
            let r = &results[i];
            let ghost before = found_rows(res@);
            let neighbours = clone_related(&r.relations);
            res.push((r.memory.clone(), r.rank, neighbours));
            proof {
                assert(rows[i as int] == r@);
                assert(found_row(res@.last()) =~= r@);
                assert(found_rows(res@) =~= before.push(r@));
                assert(rows.take(i + 1) =~= rows.take(i as int).push(rows[i as int]));
            }
            i += 1;
        }
        proof {
            assert(rows.take(i as int) =~= rows);
        }
        res
    }

    /// What a search by similarity gives, as search results.
    pub fn nearest_results(&self, hits: &Vec<Hit>, limit: usize) -> (res: Vec<MemorySearchResult>)
        ensures
            result_rows(res@) == nearest(self@, hit_rows(hits@), limit as nat),
    {
        matched_results(&self.memories, &self.relations, hits, true, None, clamp_limit(limit))
    }

    /// How much the graph holds.
    pub fn stats(&self) -> (res: DatabaseStats)
        ensures
            res.total_memories == count_value(self@.memories.len()),
            res.active_memories == count_value(
                status_count(self@.memories, MemoryStatus::Active),
            ),
            res.superseded_memories == count_value(
                status_count(self@.memories, MemoryStatus::Superseded),
            ),
            res.resolved_memories == count_value(
                status_count(self@.memories, MemoryStatus::Resolved),
            ),
            res.ephemeral_memories == count_value(
                status_count(self@.memories, MemoryStatus::Ephemeral),
            ),
            res.total_relations == count_value(self@.relations.len()),
            named_counts(res.relations_by_type@) == type_counts(self@.relations),
    {
        let all: Vec<RelationType> = vec![
            RelationType::Blocks,
            RelationType::DependsOn,
            RelationType::References,
            RelationType::Supersedes,
        ];
        let ghost edges = self@.relations;
        let ghost occurs = |r: RelationType| type_count(edges, r) > 0;
        let ghost count = |r: RelationType| (r.text(), count_value(type_count(edges, r)));
        let mut relations_by_type: Vec<(String, i64)> = Vec::new();
        let mut i: usize = 0;
        proof {
            assert(named_counts(relations_by_type@) =~= all@.take(0).filter(occurs).map_values(
                count,
            ));
        }
        while i < all.len()
            invariant
                i <= all@.len(),
                edges == self@.relations,
                occurs == (|r: RelationType| type_count(edges, r) > 0),
                count == (|r: RelationType| (r.text(), count_value(type_count(edges, r)))),
                named_counts(relations_by_type@) == all@.take(i as int).filter(occurs).map_values(
                    count,
                ),
            decreases all@.len() - i,
        {
            proof {
                lemma_filter_take(all@, i as int, occurs);
            }
            let n: u64 = count_type(&self.relations, all[i]);
            if n > 0 {
                let ghost before = all@.take(i as int).filter(occurs);
                let ghost counted = named_counts(relations_by_type@);
                relations_by_type.push((all[i].as_str().to_owned(), to_count(n)));
                proof {
                    let r = all@[i as int];
                    assert(named_counts(relations_by_type@) =~= counted.push(count(r)));
                    assert(before.push(r).map_values(count) =~= before.map_values(count).push(
                        count(r),
                    ));
                }
            }
            i += 1;
        }
        proof {
            assert(all@.take(i as int) =~= all@);
            assert(all@ =~= seq![
                RelationType::Blocks,
                RelationType::DependsOn,
                RelationType::References,
                RelationType::Supersedes,
            ]);
        }
        DatabaseStats {
            total_memories: to_count(self.memories.len() as u64),
            active_memories: to_count(count_status(&self.memories, MemoryStatus::Active)),
            superseded_memories: to_count(count_status(&self.memories, MemoryStatus::Superseded)),
            resolved_memories: to_count(count_status(&self.memories, MemoryStatus::Resolved)),
            ephemeral_memories: to_count(count_status(&self.memories, MemoryStatus::Ephemeral)),
            total_relations: to_count(self.relations.len() as u64),
            relations_by_type,
        }
    }
}

/// A new state leaves every identifier where it was.
proof fn lemma_status_keeps_ids(t: Tables, c: ChangeView, id: Seq<char>)
    requires
        c is SetStatus,
    ensures
        has_id(apply(t, c).memories, id) == has_id(t.memories, id),
{
    let u = apply(t, c);
    if has_id(t.memories, id) {
        let i = choose|i: int| 0 <= i < t.memories.len() && (#[trigger] t.memories[i]).id == id;
        assert(u.memories[i].id == id);
    }
    if has_id(u.memories, id) {
        let i = choose|i: int| 0 <= i < u.memories.len() && (#[trigger] u.memories[i]).id == id;
        assert(t.memories[i].id == id);
    }
}

/// After an insertion the new identifier and the old ones are there.
proof fn lemma_insert_has_id(t: Tables, c: ChangeView, id: Seq<char>)
    requires
        c is Insert,
        has_id(t.memories, id),
    ensures
        has_id(apply(t, c).memories, id),
        has_id(apply(t, c).memories, c->memory.id),
{
    let u = apply(t, c);
    let i = choose|i: int| 0 <= i < t.memories.len() && (#[trigger] t.memories[i]).id == id;
    assert(u.memories[i].id == id);
    assert(u.memories[t.memories.len() as int].id == c->memory.id);
}

} // verus!

//! What each request changes in the graph, or why it is refused.

use crate::models::{
    LearningView, MemoryKind, MemoryStatus, MemoryView, RelationType, RelationView,
};
use crate::store::{ErrorView, RecordView};
use crate::tables::{find, has_id, replay, ChangeView, Tables};
use crate::text::{joined, text_before};
use vstd::prelude::*;

verus! {

/// The identifier made of a kind's prefix and a short random text.
pub open spec fn generated_id(kind: MemoryKind, short: Seq<char>) -> Seq<char> {
    kind.id_prefix() + "-"@ + short
}

/// The state in which a memory of the kind starts.
pub open spec fn initial_status(kind: MemoryKind) -> MemoryStatus {
    if kind == MemoryKind::Ephemeral {
        MemoryStatus::Ephemeral
    } else {
        MemoryStatus::Active
    }
}

/// How many components an embedding has.
pub const EMBEDDING_DIM: usize = 384;

/// An embedding as the database reads it: a JSON array of its components.
pub open spec fn embedding_text(parts: Seq<Seq<char>>) -> Seq<char> {
    "["@ + joined(parts, ","@) + "]"@
}

/// The row that recording makes.
pub open spec fn recorded_row(o: RecordView, id: Seq<char>, now: Seq<char>) -> MemoryView {
    MemoryView {
        id: id,
        kind: o.kind,
        title: o.title,
        body: o.body,
        tags: o.tags,
        status: initial_status(o.kind),
        session_id: o.session_id,
        created_at: now,
        updated_at: now,
    }
}

/// An edge made at `now`.
pub open spec fn edge(
    source: Seq<char>,
    target: Seq<char>,
    relation_type: RelationType,
    now: Seq<char>,
) -> RelationView {
    RelationView {
        source_id: source,
        target_id: target,
        relation_type: relation_type,
        created_at: now,
    }
}

/// Recording a memory under `id`: the superseded memory, if there is one, gets
/// its new state and an edge from the new memory.
pub open spec fn record_plan(t: Tables, o: RecordView, id: Seq<char>, now: Seq<char>) -> Result<
    Seq<ChangeView>,
    ErrorView,
> {
    let superseded = match o.supersedes_id {
        Some(target) => seq![
            ChangeView::SetStatus { id: target, status: MemoryStatus::Superseded, at: now },
        ],
        None => Seq::empty(),
    };
    let inserted = seq![ChangeView::Insert { memory: recorded_row(o, id, now) }];
    let linked = match o.supersedes_id {
        Some(target) => seq![
            ChangeView::PutRelation { relation: edge(id, target, RelationType::Supersedes, now) },
        ],
        None => Seq::empty(),
    };
    let embedded = match o.embedding {
        Some(parts) => seq![ChangeView::PutEmbedding { id: id, vector: embedding_text(parts) }],
        None => Seq::empty(),
    };
    if o.supersedes_id is Some && !has_id(t.memories, o.supersedes_id->0) {
        Err(ErrorView::SupersededMissing { id: o.supersedes_id->0 })
    } else if has_id(t.memories, id) {
        Err(ErrorView::RecordRejected)
    } else if o.embedding is Some && o.embedding->0.len() != EMBEDDING_DIM {
        Err(ErrorView::EmbeddingRejected)
    } else {
        Ok(superseded + inserted + linked + embedded)
    }
}

/// Linking two memories. An edge by which one supersedes the other marks its
/// target as superseded, unless it is already; this holds of a memory that is
/// linked to itself too.
pub open spec fn link_plan(
    t: Tables,
    source: Seq<char>,
    target: Seq<char>,
    relation_type: RelationType,
    now: Seq<char>,
) -> Result<Seq<ChangeView>, ErrorView> {
    let linked = ChangeView::PutRelation { relation: edge(source, target, relation_type, now) };
    if !has_id(t.memories, source) {
        Err(ErrorView::SourceMissing { id: source })
    } else if !has_id(t.memories, target) {
        Err(ErrorView::TargetMissing { id: target })
    } else if relation_type == RelationType::Supersedes && find(t.memories, target)->0.status
        != MemoryStatus::Superseded {
        Ok(
            seq![
                ChangeView::SetStatus { id: target, status: MemoryStatus::Superseded, at: now },
                linked,
            ],
        )
    } else {
        Ok(seq![linked])
    }
}

/// A body with the note of its resolution.
pub open spec fn resolved_body(body: Seq<char>, note: Option<Seq<char>>) -> Seq<char> {
    match note {
        Some(note) => body + "\n\n[Resolved]: "@ + note,
        None => body,
    }
}

/// Resolving a memory.
pub open spec fn resolve_plan(
    t: Tables,
    id: Seq<char>,
    note: Option<Seq<char>>,
    now: Seq<char>,
) -> Result<Seq<ChangeView>, ErrorView> {
    match find(t.memories, id) {
        None => Err(ErrorView::NotFound { id: id }),
        Some(m) => Ok(
            seq![
                ChangeView::Rewrite {
                    id: id,
                    status: MemoryStatus::Resolved,
                    body: resolved_body(m.body, note),
                    at: now,
                },
            ],
        ),
    }
}

/// The row of the memory `id` once it is resolved.
pub open spec fn resolved_row(m: MemoryView, note: Option<Seq<char>>, now: Seq<char>) -> MemoryView {
    MemoryView {
        status: MemoryStatus::Resolved,
        body: resolved_body(m.body, note),
        updated_at: now,
        ..m
    }
}

/// The identifiers made for the learnings, one short text each.
pub open spec fn learning_ids(learnings: Seq<LearningView>, shorts: Seq<Seq<char>>) -> Seq<Seq<char>> {
    Seq::new(learnings.len(), |i: int| generated_id(learnings[i].kind, shorts[i]))
}

/// The row that a learning becomes.
pub open spec fn learning_row(
    learning: LearningView,
    id: Seq<char>,
    session: Seq<char>,
    now: Seq<char>,
) -> MemoryView {
    MemoryView {
        id: id,
        kind: learning.kind,
        title: learning.title,
        body: learning.body,
        tags: learning.tags,
        status: MemoryStatus::Active,
        session_id: Some(session),
        created_at: now,
        updated_at: now,
    }
}

/// The learnings as new memories.
pub open spec fn learning_inserts(
    learnings: Seq<LearningView>,
    ids: Seq<Seq<char>>,
    session: Seq<char>,
    now: Seq<char>,
) -> Seq<ChangeView> {
    Seq::new(
        learnings.len(),
        |i: int|
            ChangeView::Insert { memory: learning_row(learnings[i], ids[i], session, now) },
    )
}

/// Identifiers that are free and differ from one another.
pub open spec fn fresh_ids(memories: Seq<MemoryView>, ids: Seq<Seq<char>>) -> bool {
    forall|i: int|
        0 <= i < ids.len() ==> !has_id(memories, #[trigger] ids[i]) && !ids.take(i).contains(ids[i])
}

/// A scratch note of the session.
pub open spec fn is_scratch(m: MemoryView, session: Seq<char>) -> bool {
    m.session_id == Some(session) && (m.status == MemoryStatus::Ephemeral || m.kind
        == MemoryKind::Ephemeral)
}

/// The scratch notes of the session.
pub open spec fn scratch(memories: Seq<MemoryView>, session: Seq<char>) -> Seq<MemoryView> {
    memories.filter(|m: MemoryView| is_scratch(m, session))
}

/// The rows deleted one by one.
pub open spec fn deletions(rows: Seq<MemoryView>) -> Seq<ChangeView> {
    rows.map_values(|m: MemoryView| ChangeView::Delete { id: m.id })
}

/// The rows put away as resolved one by one.
pub open spec fn archivings(rows: Seq<MemoryView>, now: Seq<char>) -> Seq<ChangeView> {
    rows.map_values(
        |m: MemoryView|
            ChangeView::SetStatus { id: m.id, status: MemoryStatus::Resolved, at: now },
    )
}

/// Consolidating a session: its learnings become memories under the given
/// identifiers, and the scratch notes that it had go, or are put away as
/// resolved. The learnings stay, whatever their kind.
pub open spec fn consolidate_plan(
    t: Tables,
    session: Seq<char>,
    learnings: Seq<LearningView>,
    ids: Seq<Seq<char>>,
    purge: bool,
    now: Seq<char>,
) -> Result<Seq<ChangeView>, ErrorView> {
    let inserts = learning_inserts(learnings, ids, session, now);
    let rows = scratch(t.memories, session);
    if !fresh_ids(t.memories, ids) {
        Err(ErrorView::LearningRejected)
    } else if purge {
        Ok(inserts + deletions(rows))
    } else {
        Ok(inserts + archivings(rows, now))
    }
}

/// An ephemeral memory made before `cutoff`.
pub open spec fn is_expired(m: MemoryView, cutoff: Seq<char>) -> bool {
    m.status == MemoryStatus::Ephemeral && text_before(m.created_at, cutoff)
}

/// The ephemeral memories made before `cutoff`.
pub open spec fn expired(memories: Seq<MemoryView>, cutoff: Seq<char>) -> Seq<MemoryView> {
    memories.filter(|m: MemoryView| is_expired(m, cutoff))
}

/// A series of insertions in front of nothing: the rows in their order.
pub proof fn lemma_replay_inserts(
    t: Tables,
    learnings: Seq<LearningView>,
    ids: Seq<Seq<char>>,
    session: Seq<char>,
    now: Seq<char>,
    n: int,
)
    requires
        0 <= n <= learnings.len(),
        ids.len() == learnings.len(),
    ensures
        replay(t, learning_inserts(learnings, ids, session, now).take(n)) == (Tables {
            memories: t.memories + Seq::new(
                n as nat,
                |i: int| learning_row(learnings[i], ids[i], session, now),
            ),
            relations: t.relations,
        }),
    decreases n,
{
    let inserts = learning_inserts(learnings, ids, session, now);
    let rows = |k: int|
        Seq::new(k as nat, |i: int| learning_row(learnings[i], ids[i], session, now));
    if n == 0 {
        assert(inserts.take(0) =~= Seq::empty());
        assert(t.memories + rows(0) =~= t.memories);
    } else {
        lemma_replay_inserts(t, learnings, ids, session, now, n - 1);
        assert(inserts.take(n).drop_last() =~= inserts.take(n - 1));
        assert((t.memories + rows(n - 1)).push(
            learning_row(learnings[n - 1], ids[n - 1], session, now),
        ) =~= t.memories + rows(n));
    }
}

} // verus!

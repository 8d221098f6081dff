//! What each request does to the graph, told by what was asked for and what is
//! in the tables before and after.

use crate::laws::{
    is_kept, law_consolidate_archive, law_consolidate_purge, law_link, law_purge_expired,
    law_record, law_resolve, lemma_filter_agree, lemma_filter_all, lemma_link_replay, lemma_named,
    lemma_replay_archivings, lemma_replay_deletions,
};
use crate::models::{
    LearningView, MemoryKind, MemoryStatus, MemoryView, RelationType, RelationView,
};
use crate::plans::{
    archivings, consolidate_plan, deletions, embedding_text, expired, fresh_ids, generated_id,
    is_expired, is_scratch, learning_ids, learning_inserts, learning_row, lemma_replay_inserts,
    link_plan, record_plan, resolve_plan,
};
use crate::reading::has_edge;
use crate::search::lemma_filter_concat;
use crate::store::{archivings_of, consolidation_summary, deletions_of, row_ids, RecordView};
use crate::tables::{
    anchored, find, has_id, lemma_filter_elements, lemma_find, lemma_find_unique,
    lemma_replay_concat, replay, same_edge, ChangeView, Tables,
};
use crate::text::text_before;
use vstd::prelude::*;

verus! {

/// Whether a memory has the identifier `id`.
pub open spec fn is_there(t: Tables, id: Seq<char>) -> bool {
    exists|i: int| 0 <= i < t.memories.len() && (#[trigger] t.memories[i]).id == id
}

/// Finding finds the memory that has the identifier, and misses only where there
/// is none.
pub proof fn law_find(t: Tables, id: Seq<char>, i: int)
    requires
        t.valid(),
    ensures
        find(t.memories, id) is Some <==> is_there(t, id),
        find(t.memories, id) matches Some(m) ==> m.id == id && t.memories.contains(m),
        0 <= i < t.memories.len() && t.memories[i].id == id ==> find(t.memories, id) == Some(
            t.memories[i],
        ),
{
    lemma_find(t.memories, id);
    if 0 <= i < t.memories.len() && t.memories[i].id == id {
        lemma_find_unique(t.memories, i);
    }
}

/// The text before another in the order of code points: they part at a place
/// where the first has ended or has the smaller character.
pub proof fn law_text_before(a: Seq<char>, b: Seq<char>)
    ensures
        text_before(a, b) <==> exists|k: int|
            {
                &&& 0 <= k <= a.len()
                &&& k < b.len()
                &&& #[trigger] a.take(k) == b.take(k)
                &&& k == a.len() || (a[k] as int) < (b[k] as int)
            },
    decreases a.len(),
{
    if b.len() > 0 && a.len() > 0 && a[0] == b[0] {
        let x = a.drop_first();
        let y = b.drop_first();
        law_text_before(x, y);
        if text_before(a, b) {
            let k = choose|k: int|
                {
                    &&& 0 <= k <= x.len()
                    &&& k < y.len()
                    &&& #[trigger] x.take(k) == y.take(k)
                    &&& k == x.len() || (x[k] as int) < (y[k] as int)
                };
            assert(a.take(k + 1) =~= seq![a[0]] + x.take(k));
            assert(b.take(k + 1) =~= seq![b[0]] + y.take(k));
            assert(a.take(k + 1) == b.take(k + 1));
        }
        if exists|k: int|
            {
                &&& 0 <= k <= a.len()
                &&& k < b.len()
                &&& #[trigger] a.take(k) == b.take(k)
                &&& k == a.len() || (a[k] as int) < (b[k] as int)
            } {
            let k = choose|k: int|
                {
                    &&& 0 <= k <= a.len()
                    &&& k < b.len()
                    &&& #[trigger] a.take(k) == b.take(k)
                    &&& k == a.len() || (a[k] as int) < (b[k] as int)
                };
            assert(k > 0);
            assert(x.take(k - 1) =~= a.take(k).drop_first());
            assert(y.take(k - 1) =~= b.take(k).drop_first());
            assert(x.take(k - 1) == y.take(k - 1));
        }
    } else if b.len() > 0 {
        assert(a.take(0) =~= b.take(0));
        if exists|k: int|
            {
                &&& 0 <= k <= a.len()
                &&& k < b.len()
                &&& #[trigger] a.take(k) == b.take(k)
                &&& k == a.len() || (a[k] as int) < (b[k] as int)
            } {
            let k = choose|k: int|
                {
                    &&& 0 <= k <= a.len()
                    &&& k < b.len()
                    &&& #[trigger] a.take(k) == b.take(k)
                    &&& k == a.len() || (a[k] as int) < (b[k] as int)
                };
            if k > 0 {
                assert(a.take(k)[0] == b.take(k)[0]);
            }
        }
    }
}

/// Two memories that differ at most in their state and the time of their update.
pub open spec fn same_but_for_state(a: MemoryView, b: MemoryView) -> bool {
    &&& a.id == b.id
    &&& a.kind == b.kind
    &&& a.title == b.title
    &&& a.body == b.body
    &&& a.tags == b.tags
    &&& a.session_id == b.session_id
    &&& a.created_at == b.created_at
}

/// A memory that was recorded has what was asked for, field by field; the one
/// that it supersedes is marked and linked from it; every other memory and every
/// other edge is as it was.
pub proof fn law_recorded_fields(
    t: Tables,
    o: RecordView,
    id: Seq<char>,
    now: Seq<char>,
    x: Seq<char>,
    r: RelationView,
)
    requires
        t.valid(),
        record_plan(t, o, id, now) is Ok,
    ensures
        ({
            let u = replay(t, record_plan(t, o, id, now)->Ok_0);
            &&& !is_there(t, id)
            &&& find(u.memories, id) matches Some(m) && {
                &&& m.id == id
                &&& m.kind == o.kind
                &&& m.title == o.title
                &&& m.body == o.body
                &&& m.tags == o.tags
                &&& m.session_id == o.session_id
                &&& m.created_at == now
                &&& m.updated_at == now
                &&& o.kind == MemoryKind::Ephemeral ==> m.status == MemoryStatus::Ephemeral
                &&& o.kind != MemoryKind::Ephemeral ==> m.status == MemoryStatus::Active
            }
            &&& o.supersedes_id matches Some(old) ==> {
                &&& find(t.memories, old) matches Some(was) && find(u.memories, old) matches Some(
                    is,
                ) && {
                    &&& is.status == MemoryStatus::Superseded
                    &&& is.updated_at == now
                    &&& same_but_for_state(was, is)
                }
                &&& has_edge(u, id, old, RelationType::Supersedes)
            }
            &&& x != id && o.supersedes_id != Some(x) ==> find(u.memories, x) == find(
                t.memories,
                x,
            )
            &&& u.relations.contains(r) <==> t.relations.contains(r) || (o.supersedes_id == Some(
                r.target_id,
            ) && r.source_id == id && r.relation_type == RelationType::Supersedes && r.created_at
                == now)
            &&& u.memories.len() == t.memories.len() + 1
        }),
{
    law_record(t, o, id, now, x);
    let u = replay(t, record_plan(t, o, id, now)->Ok_0);
    assert(!has_id(t.memories, id));
    if let Some(old) = o.supersedes_id {
        let k = u.relations.len() - 1;
        assert(u.relations[k].source_id == id);
        if t.relations.contains(r) {
            let i = choose|i: int| 0 <= i < t.relations.len() && t.relations[i] == r;
            assert(u.relations[i] == r);
        }
        if u.relations.contains(r) {
            let i = choose|i: int| 0 <= i < u.relations.len() && u.relations[i] == r;
            if i < k {
                assert(t.relations[i] == r);
            }
        }
        if o.supersedes_id == Some(r.target_id) && r.source_id == id && r.relation_type
            == RelationType::Supersedes && r.created_at == now {
            assert(u.relations[k] == r);
        }
    }
}

/// Recording is refused exactly where the memory to supersede is missing, the
/// identifier is taken, or an embedding is not of the right length.
pub proof fn law_record_refused(t: Tables, o: RecordView, id: Seq<char>, now: Seq<char>)
    ensures
        record_plan(t, o, id, now) is Err <==> {
            ||| o.supersedes_id matches Some(old) && !is_there(t, old)
            ||| is_there(t, id)
            ||| o.embedding matches Some(parts) && parts.len() != 384
        },
{
    if let Some(old) = o.supersedes_id {
        assert(is_there(t, old) == has_id(t.memories, old));
    }
    assert(is_there(t, id) == has_id(t.memories, id));
}

/// An embedding is stored with the memory that it was given for, whole and in
/// order; where none was given, none is stored.
pub proof fn law_recorded_embedding(
    t: Tables,
    o: RecordView,
    id: Seq<char>,
    now: Seq<char>,
    k: int,
)
    requires
        record_plan(t, o, id, now) is Ok,
    ensures
        ({
            let plan = record_plan(t, o, id, now)->Ok_0;
            &&& o.embedding is Some ==> plan.len() > 0 && (plan.last() matches
                ChangeView::PutEmbedding { id: at, vector } && at == id && vector
                == embedding_text(o.embedding->0))
            &&& 0 <= k < plan.len() && plan[k] is PutEmbedding ==> o.embedding is Some && k
                == plan.len() - 1
        }),
{
    let plan = record_plan(t, o, id, now)->Ok_0;
    let n = if o.embedding is Some {
        plan.len() - 1
    } else {
        plan.len() as int
    };
    assert(forall|i: int| 0 <= i < n ==> !(#[trigger] plan[i] is PutEmbedding));
}

/// An embedding's text lists its components between brackets, each after the
/// ones before it.
pub proof fn law_embedding_text(parts: Seq<Seq<char>>, part: Seq<char>)
    ensures
        embedding_text(Seq::empty()) == seq!['[', ']'],
        embedding_text(seq![part]) == seq!['['] + part + seq![']'],
        parts.len() > 0 ==> embedding_text(parts.push(part)) == embedding_text(parts).drop_last()
            + seq![','] + part + seq![']'],
{
    reveal_strlit("[");
    reveal_strlit("]");
    reveal_strlit(",");
    assert(embedding_text(Seq::empty()) =~= seq!['[', ']']);
    assert(embedding_text(seq![part]) =~= seq!['['] + part + seq![']']);
    if parts.len() > 0 {
        assert(parts.push(part).drop_last() =~= parts);
        assert(embedding_text(parts.push(part)) =~= embedding_text(parts).drop_last() + seq![',']
            + part + seq![']']);
    }
}

/// Linking puts the edge that was asked for and no other; where it supersedes,
/// its target is superseded from then on, with everything else of it as it was.
/// Every other memory is as it was.
pub proof fn law_linked_fields(
    t: Tables,
    source: Seq<char>,
    target: Seq<char>,
    relation_type: RelationType,
    now: Seq<char>,
    a: Seq<char>,
    b: Seq<char>,
    ty: RelationType,
    x: Seq<char>,
)
    requires
        t.valid(),
        link_plan(t, source, target, relation_type, now) is Ok,
    ensures
        ({
            let u = replay(t, link_plan(t, source, target, relation_type, now)->Ok_0);
            &&& has_edge(u, a, b, ty) <==> has_edge(t, a, b, ty) || (a == source && b == target
                && ty == relation_type)
            &&& u.relations.contains(
                RelationView {
                    source_id: source,
                    target_id: target,
                    relation_type: relation_type,
                    created_at: now,
                },
            )
            &&& relation_type == RelationType::Supersedes ==> (find(t.memories, target) matches
                Some(was) && find(u.memories, target) matches Some(is) && is.status
                == MemoryStatus::Superseded && same_but_for_state(was, is) && (was.status
                == MemoryStatus::Superseded ==> is == was) && (was.status
                != MemoryStatus::Superseded ==> is.updated_at == now))
            &&& relation_type != RelationType::Supersedes || x != target ==> find(u.memories, x)
                == find(t.memories, x)
            &&& u.memories.len() == t.memories.len()
        }),
{
    let u = replay(t, link_plan(t, source, target, relation_type, now)->Ok_0);
    let t1 = lemma_link_replay(t, source, target, relation_type, now);
    let new = u.relations.last();
    let k = u.relations.len() - 1;
    law_link(t, source, target, relation_type, now, new, x);
    assert(u.relations[k] == new);
    if has_edge(t, a, b, ty) {
        let i = choose|i: int|
            0 <= i < t.relations.len() && (#[trigger] t.relations[i]).source_id == a
                && t.relations[i].target_id == b && t.relations[i].relation_type == ty;
        law_link(t, source, target, relation_type, now, t.relations[i], x);
        if same_edge(t.relations[i], new) {
            assert(u.relations[k].source_id == a);
        } else {
            assert(t.relations.contains(t.relations[i]));
            let j = choose|j: int| 0 <= j < u.relations.len() && u.relations[j] == t.relations[i];
            assert(u.relations[j].source_id == a);
        }
    }
    if has_edge(u, a, b, ty) {
        let j = choose|j: int|
            0 <= j < u.relations.len() && (#[trigger] u.relations[j]).source_id == a
                && u.relations[j].target_id == b && u.relations[j].relation_type == ty;
        law_link(t, source, target, relation_type, now, u.relations[j], x);
        if !same_edge(u.relations[j], new) {
            assert(u.relations.contains(u.relations[j]));
            let i = choose|i: int| 0 <= i < t.relations.len() && t.relations[i] == u.relations[j];
            assert(t.relations[i].source_id == a);
        }
    }
    if a == source && b == target && ty == relation_type {
        assert(u.relations[k].source_id == a);
    }
}

/// Linking is refused exactly where an end of the edge is missing.
pub proof fn law_link_refused(
    t: Tables,
    source: Seq<char>,
    target: Seq<char>,
    relation_type: RelationType,
    now: Seq<char>,
)
    ensures
        link_plan(t, source, target, relation_type, now) is Err <==> !is_there(t, source)
            || !is_there(t, target),
{
    assert(is_there(t, source) == has_id(t.memories, source));
    assert(is_there(t, target) == has_id(t.memories, target));
}

/// A memory that was resolved is resolved, keeps its body in front of the note,
/// and is otherwise as it was; so is every other memory and every edge. It is
/// refused exactly where there is no such memory.
pub proof fn law_resolved_fields(
    t: Tables,
    id: Seq<char>,
    note: Option<Seq<char>>,
    now: Seq<char>,
    x: Seq<char>,
)
    ensures
        resolve_plan(t, id, note, now) is Err <==> !is_there(t, id),
        resolve_plan(t, id, note, now) matches Ok(plan) ==> {
            let u = replay(t, plan);
            &&& find(t.memories, id) matches Some(was) && find(u.memories, id) matches Some(is) && {
                &&& is.status == MemoryStatus::Resolved
                &&& is.updated_at == now
                &&& is.id == id
                &&& is.kind == was.kind
                &&& is.title == was.title
                &&& is.tags == was.tags
                &&& is.session_id == was.session_id
                &&& is.created_at == was.created_at
                &&& note is None ==> is.body == was.body
                &&& note matches Some(n) ==> is.body.len() >= was.body.len() + n.len()
                    && is.body.take(was.body.len() as int) == was.body && is.body.skip(
                    is.body.len() - n.len(),
                ) == n
            }
            &&& x != id ==> find(u.memories, x) == find(t.memories, x)
            &&& u.relations == t.relations
            &&& u.memories.len() == t.memories.len()
        },
{
    lemma_find(t.memories, id);
    assert(is_there(t, id) == has_id(t.memories, id));
    if let Ok(plan) = resolve_plan(t, id, note, now) {
        law_resolve(t, id, note, now, x);
        let u = replay(t, plan);
        let was = find(t.memories, id)->0;
        let is = find(u.memories, id)->0;
        if let Some(n) = note {
            assert(is.body.take(was.body.len() as int) =~= was.body);
            assert(is.body.skip(is.body.len() - n.len()) =~= n);
        }
        assert(plan.drop_last() =~= Seq::empty());
        assert(replay(t, plan.drop_last()) == t);
    }
}

/// What passes a filter and what does not make up a sequence.
proof fn lemma_filter_parts<A>(s: Seq<A>, keep: spec_fn(A) -> bool)
    ensures
        s.filter(keep).len() + s.filter(|x: A| !keep(x)).len() == s.len(),
    decreases s.len(),
{
    reveal(Seq::filter);
    if s.len() > 0 {
        lemma_filter_parts(s.drop_last(), keep);
    }
}

/// Deleting the memories that a predicate names, from their table and what was
/// added to it, takes away as many as it names.
proof fn lemma_swept_len(
    t: Tables,
    t1: Tables,
    more: Seq<MemoryView>,
    named: spec_fn(MemoryView) -> bool,
)
    requires
        t.valid(),
        t1.memories == t.memories + more,
        forall|i: int| 0 <= i < more.len() ==> !is_there(t, (#[trigger] more[i]).id),
    ensures
        replay(t1, deletions(t.memories.filter(named))).memories.len() + t.memories.filter(
            named,
        ).len() == t1.memories.len(),
{
    let rows = t.memories.filter(named);
    let ids = row_ids(rows);
    let kept = |m: MemoryView| is_kept(m, ids);
    let stays = |m: MemoryView| !named(m);
    assert(deletions(rows) =~= deletions_of(ids));
    lemma_replay_deletions(t1, ids);
    lemma_filter_concat(t.memories, more, kept);
    assert forall|i: int| 0 <= i < t.memories.len() implies kept(#[trigger] t.memories[i])
        == stays(t.memories[i]) by {
        lemma_named(t.memories, named, t.memories[i].id);
        lemma_find_unique(t.memories, i);
    }
    lemma_filter_agree(t.memories, kept, stays);
    assert forall|i: int| 0 <= i < more.len() implies kept(#[trigger] more[i]) by {
        lemma_named(t.memories, named, more[i].id);
        lemma_find(t.memories, more[i].id);
    }
    lemma_filter_all(more, kept);
    lemma_filter_parts(t.memories, named);
}

/// A note of the session that is not meant to last.
pub open spec fn is_note_of(m: MemoryView, session: Seq<char>) -> bool {
    m.session_id == Some(session) && (m.status == MemoryStatus::Ephemeral || m.kind
        == MemoryKind::Ephemeral)
}

/// A session that was consolidated: every learning is found, under the
/// identifier that is told, as the active memory that it asks to be, field by
/// field. Every note that the session had is gone, or resolved and otherwise as
/// it was. Every other memory is as it was, and none appears but the learnings.
/// The counts that are told are those of the learnings and of the notes.
pub proof fn law_consolidated_fields(
    t: Tables,
    session: Seq<char>,
    learnings: Seq<LearningView>,
    ids: Seq<Seq<char>>,
    purge: bool,
    now: Seq<char>,
    i: int,
    x: Seq<char>,
    r: RelationView,
)
    requires
        t.valid(),
        ids.len() == learnings.len(),
        consolidate_plan(t, session, learnings, ids, purge, now) is Ok,
    ensures
        ({
            let u = replay(t, consolidate_plan(t, session, learnings, ids, purge, now)->Ok_0);
            let told = consolidation_summary(t, session, learnings, ids, purge, now);
            &&& told.session_id == session
            &&& told.learnings_recorded == learnings.len()
            &&& told.recorded_ids.len() == learnings.len()
            &&& 0 <= i < learnings.len() ==> told.recorded_ids[i] == ids[i] && !is_there(t, ids[i])
                && (find(u.memories, told.recorded_ids[i]) matches Some(m) && {
                &&& m.title == learnings[i].title
                &&& m.body == learnings[i].body
                &&& m.tags == learnings[i].tags
                &&& m.kind == learnings[i].kind
                &&& m.session_id == Some(session)
                &&& m.status == MemoryStatus::Active
                &&& m.created_at == now
                &&& m.updated_at == now
                &&& m.id == ids[i]
            })
            &&& find(t.memories, x) matches Some(was) ==> {
                &&& is_note_of(was, session) && purge ==> find(u.memories, x) is None
                &&& is_note_of(was, session) && !purge ==> (find(u.memories, x) matches Some(is)
                    && is.status == MemoryStatus::Resolved && is.updated_at == now
                    && same_but_for_state(was, is))
                &&& !is_note_of(was, session) ==> find(u.memories, x) == Some(was)
            }
            &&& find(t.memories, x) is None && find(u.memories, x) is Some ==> ids.contains(x)
            &&& u.relations.contains(r) <==> t.relations.contains(r) && is_there(u, r.source_id)
                && is_there(u, r.target_id)
            &&& purge ==> told.ephemeral_archived == 0 && u.memories.len() + told.ephemeral_purged
                == t.memories.len() + learnings.len()
            &&& !purge ==> told.ephemeral_purged == 0 && u.memories.len() == t.memories.len()
                + learnings.len()
        }),
{
    let plan = consolidate_plan(t, session, learnings, ids, purge, now)->Ok_0;
    let u = replay(t, plan);
    let inserts = learning_inserts(learnings, ids, session, now);
    let t1 = replay(t, inserts);
    let n = learnings.len() as int;
    let more = Seq::new(learnings.len(), |k: int| learning_row(learnings[k], ids[k], session, now));
    let named = |m: MemoryView| is_scratch(m, session);
    let rows = t.memories.filter(named);
    lemma_find(t.memories, x);
    if 0 <= i < learnings.len() {
        assert(!has_id(t.memories, ids[i]));
    }
    assert(inserts.take(n) =~= inserts);
    lemma_replay_inserts(t, learnings, ids, session, now, n);
    assert(t1.memories == t.memories + more);
    if purge {
        law_consolidate_purge(t, session, learnings, ids, now, x, i, r);
        assert forall|k: int| 0 <= k < more.len() implies !is_there(t, (#[trigger] more[k]).id) by {
            assert(!has_id(t.memories, ids[k]));
        }
        lemma_swept_len(t, t1, more, named);
        lemma_replay_concat(t, inserts, deletions(rows));
    } else {
        law_consolidate_archive(t, session, learnings, ids, now, x, i);
        lemma_replay_concat(t, inserts, archivings(rows, now));
        let notes = row_ids(rows);
        assert(archivings(rows, now) =~= archivings_of(notes, now));
        lemma_replay_archivings(t1, notes, now);
        if t.relations.contains(r) {
            let k = choose|k: int| 0 <= k < t.relations.len() && t.relations[k] == r;
            assert(has_id(t.memories, t.relations[k].source_id));
            law_consolidate_archive(t, session, learnings, ids, now, r.source_id, i);
            law_consolidate_archive(t, session, learnings, ids, now, r.target_id, i);
            lemma_find(t.memories, r.source_id);
            lemma_find(t.memories, r.target_id);
            lemma_find(u.memories, r.source_id);
            lemma_find(u.memories, r.target_id);
        }
    }
    if find(t.memories, x) is None && find(u.memories, x) is Some {
        lemma_only_learnings(t, session, learnings, ids, purge, now, x);
    }
}

/// Of the memories that a consolidation leaves, those that were not there are
/// learnings.
proof fn lemma_only_learnings(
    t: Tables,
    session: Seq<char>,
    learnings: Seq<LearningView>,
    ids: Seq<Seq<char>>,
    purge: bool,
    now: Seq<char>,
    x: Seq<char>,
)
    requires
        t.valid(),
        ids.len() == learnings.len(),
        consolidate_plan(t, session, learnings, ids, purge, now) is Ok,
        find(t.memories, x) is None,
        find(
            replay(
                t,
                consolidate_plan(t, session, learnings, ids, purge, now)->Ok_0,
            ).memories,
            x,
        ) is Some,
    ensures
        ids.contains(x),
{
    let u = replay(t, consolidate_plan(t, session, learnings, ids, purge, now)->Ok_0);
    let inserts = learning_inserts(learnings, ids, session, now);
    let t1 = replay(t, inserts);
    let n = learnings.len() as int;
    let named = |m: MemoryView| is_scratch(m, session);
    let rows = t.memories.filter(named);
    let notes = row_ids(rows);
    assert(inserts.take(n) =~= inserts);
    lemma_replay_inserts(t, learnings, ids, session, now, n);
    lemma_find(u.memories, x);
    let k = choose|k: int| 0 <= k < u.memories.len() && (#[trigger] u.memories[k]).id == x;
    let m = if purge {
        assert(deletions(rows) =~= deletions_of(notes));
        lemma_replay_concat(t, inserts, deletions(rows));
        lemma_replay_deletions(t1, notes);
        lemma_filter_elements(t1.memories, |m: MemoryView| is_kept(m, notes));
        choose|j: int| 0 <= j < t1.memories.len() && t1.memories[j] == u.memories[k]
    } else {
        assert(archivings(rows, now) =~= archivings_of(notes, now));
        lemma_replay_concat(t, inserts, archivings(rows, now));
        lemma_replay_archivings(t1, notes, now);
        k
    };
    assert(t1.memories[m].id == x);
    lemma_find(t.memories, x);
    if m < t.memories.len() {
        assert(t.memories[m].id == x);
    } else {
        assert(ids[m - t.memories.len()] == x);
    }
}

/// The notes that one consolidation deletes are those that another would put
/// away.
pub proof fn law_purged_or_archived(
    t: Tables,
    session: Seq<char>,
    learnings: Seq<LearningView>,
    ids: Seq<Seq<char>>,
    now: Seq<char>,
)
    ensures
        consolidation_summary(t, session, learnings, ids, true, now).ephemeral_purged
            == consolidation_summary(t, session, learnings, ids, false, now).ephemeral_archived,
{
}

/// A consolidation is refused exactly where an identifier for a learning is
/// taken, by a memory or by an earlier learning.
pub proof fn law_consolidate_refused(
    t: Tables,
    session: Seq<char>,
    learnings: Seq<LearningView>,
    ids: Seq<Seq<char>>,
    purge: bool,
    now: Seq<char>,
)
    ensures
        consolidate_plan(t, session, learnings, ids, purge, now) is Err <==> exists|i: int|
            0 <= i < ids.len() && (is_there(t, #[trigger] ids[i]) || exists|j: int|
                0 <= j < i && #[trigger] ids[j] == ids[i]),
{
    if consolidate_plan(t, session, learnings, ids, purge, now) is Err {
        let i = choose|i: int|
            0 <= i < ids.len() && !(!has_id(t.memories, #[trigger] ids[i]) && !ids.take(
                i,
            ).contains(ids[i]));
        if ids.take(i).contains(ids[i]) {
            let front = ids.take(i);
            let j = choose|j: int| 0 <= j < front.len() && front[j] == ids[i];
            assert(ids[j] == ids[i]);
        } else {
            assert(is_there(t, ids[i]));
        }
    }
    if exists|i: int|
        0 <= i < ids.len() && (is_there(t, #[trigger] ids[i]) || exists|j: int|
            0 <= j < i && #[trigger] ids[j] == ids[i]) {
        let i = choose|i: int|
            0 <= i < ids.len() && (is_there(t, #[trigger] ids[i]) || exists|j: int|
                0 <= j < i && #[trigger] ids[j] == ids[i]);
        if is_there(t, ids[i]) {
            assert(has_id(t.memories, ids[i]));
        } else {
            let j = choose|j: int| 0 <= j < i && #[trigger] ids[j] == ids[i];
            assert(ids.take(i)[j] == ids[i]);
        }
        assert(!fresh_ids(t.memories, ids));
    }
}

/// An identifier that is made says the kind and ends in the short text; two are
/// the same only where kind and short text are.
pub proof fn law_generated_id(
    kind: MemoryKind,
    short: Seq<char>,
    other: MemoryKind,
    other_short: Seq<char>,
)
    ensures
        generated_id(kind, short).len() == 4 + short.len(),
        generated_id(kind, short)[3] == '-',
        generated_id(kind, short).skip(4) == short,
        generated_id(kind, short) == generated_id(other, other_short) ==> kind == other && short
            == other_short,
{
    reveal_strlit("DEC");
    reveal_strlit("TSK");
    reveal_strlit("INV");
    reveal_strlit("BLK");
    reveal_strlit("EPH");
    reveal_strlit("-");
    let a = generated_id(kind, short);
    let b = generated_id(other, other_short);
    assert(a.skip(4) =~= short);
    assert(b.skip(4) =~= other_short);
    assert(a[0] == kind.id_prefix()[0]);
    assert(b[0] == other.id_prefix()[0]);
}

/// Each learning gets an identifier of its own kind and short text.
pub proof fn law_learning_ids(learnings: Seq<LearningView>, shorts: Seq<Seq<char>>, i: int)
    ensures
        learning_ids(learnings, shorts).len() == learnings.len(),
        0 <= i < learnings.len() ==> learning_ids(learnings, shorts)[i].skip(4) == shorts[i]
            && learning_ids(learnings, shorts)[i].take(3) == learnings[i].kind.id_prefix(),
{
    if 0 <= i < learnings.len() {
        law_generated_id(learnings[i].kind, shorts[i], learnings[i].kind, shorts[i]);
        reveal_strlit("DEC");
        reveal_strlit("TSK");
        reveal_strlit("INV");
        reveal_strlit("BLK");
        reveal_strlit("EPH");
        assert(learning_ids(learnings, shorts)[i].take(3) =~= learnings[i].kind.id_prefix());
    }
}

/// The sweep of old notes takes exactly the memories in the ephemeral state that
/// were made before the cutoff, and tells how many they were.
pub proof fn law_swept_fields(t: Tables, cutoff: Seq<char>, x: Seq<char>, r: RelationView)
    requires
        t.valid(),
    ensures
        ({
            let u = replay(t, deletions(expired(t.memories, cutoff)));
            &&& find(t.memories, x) matches Some(m) ==> find(u.memories, x) == if m.status
                == MemoryStatus::Ephemeral && text_before(m.created_at, cutoff) {
                None
            } else {
                Some(m)
            }
            &&& find(t.memories, x) is None ==> find(u.memories, x) is None
            &&& u.relations.contains(r) <==> t.relations.contains(r) && is_there(u, r.source_id)
                && is_there(u, r.target_id)
            &&& u.memories.len() + expired(t.memories, cutoff).len() == t.memories.len()
        }),
{
    law_purge_expired(t, cutoff, x, r);
    let none = Seq::<MemoryView>::empty();
    assert(t.memories + none =~= t.memories);
    lemma_swept_len(t, t, none, |m: MemoryView| is_expired(m, cutoff));
}

/// Loading keeps every memory and every edge between two of them, and nothing
/// else.
pub proof fn law_loaded_rows(t: Tables, r: RelationView)
    ensures
        anchored(t).memories == t.memories,
        anchored(t).relations.contains(r) <==> t.relations.contains(r) && is_there(t, r.source_id)
            && is_there(t, r.target_id),
{
    let u = anchored(t);
    let keep = |q: RelationView| crate::tables::is_anchored(t.memories, q);
    lemma_filter_elements(t.relations, keep);
    if u.relations.contains(r) {
        let k = choose|k: int| 0 <= k < u.relations.len() && u.relations[k] == r;
        assert(keep(u.relations[k]));
    }
    if t.relations.contains(r) {
        let k = choose|k: int| 0 <= k < t.relations.len() && t.relations[k] == r;
        if is_there(t, r.source_id) && is_there(t, r.target_id) {
            assert(keep(t.relations[k]));
        }
    }
}

} // verus!

//! The graph as two tables, and what each change does to them.

use crate::models::{MemoryStatus, MemoryView, RelationView};
use vstd::prelude::*;

verus! {

/// The rows of the two tables, each in the order of insertion.
#[verifier::ext_equal]
pub ghost struct Tables {
    pub memories: Seq<MemoryView>,
    pub relations: Seq<RelationView>,
}

/// One change of the tables (or of the embeddings kept beside them).
#[verifier::ext_equal]
pub ghost enum ChangeView {
    /// A new memory.
    Insert { memory: MemoryView },
    /// A new state of the memory `id`.
    SetStatus { id: Seq<char>, status: MemoryStatus, at: Seq<char> },
    /// A new state and a new body of the memory `id`.
    Rewrite { id: Seq<char>, status: MemoryStatus, body: Seq<char>, at: Seq<char> },
    /// The memory `id` goes, and its edges with it.
    Delete { id: Seq<char> },
    /// An edge, in place of one with the same ends and type.
    PutRelation { relation: RelationView },
    /// The embedding of the memory `id`.
    PutEmbedding { id: Seq<char>, vector: Seq<char> },
}

/// Whether a memory has the identifier `id`.
pub open spec fn has_id(memories: Seq<MemoryView>, id: Seq<char>) -> bool {
    exists|i: int| 0 <= i < memories.len() && (#[trigger] memories[i]).id == id
}

/// The memory with the identifier `id`.
pub open spec fn find(memories: Seq<MemoryView>, id: Seq<char>) -> Option<MemoryView>
    decreases memories.len(),
{
    if memories.len() == 0 {
        None
    } else {
        match find(memories.drop_last(), id) {
            Some(m) => Some(m),
            None => if memories.last().id == id {
                Some(memories.last())
            } else {
                None
            },
        }
    }
}

/// Two edges with the same ends and type.
pub open spec fn same_edge(a: RelationView, b: RelationView) -> bool {
    a.source_id == b.source_id && a.target_id == b.target_id && a.relation_type == b.relation_type
}

/// An edge that starts or ends at `id`.
pub open spec fn touches(r: RelationView, id: Seq<char>) -> bool {
    r.source_id == id || r.target_id == id
}

/// No two memories share an identifier.
pub open spec fn unique_ids(memories: Seq<MemoryView>) -> bool {
    forall|i: int, j: int|
        0 <= i < j < memories.len() ==> (#[trigger] memories[i]).id != (#[trigger] memories[j]).id
}

/// No two edges share their ends and their type.
pub open spec fn unique_edges(relations: Seq<RelationView>) -> bool {
    forall|i: int, j: int|
        0 <= i < j < relations.len() ==> !same_edge(#[trigger] relations[i], #[trigger] relations[j])
}

/// Both ends of every edge are memories.
pub open spec fn edges_anchored(t: Tables) -> bool {
    forall|i: int|
        0 <= i < t.relations.len() ==> has_id(t.memories, (#[trigger] t.relations[i]).source_id)
            && has_id(t.memories, t.relations[i].target_id)
}

/// An edge between two memories.
pub open spec fn is_anchored(memories: Seq<MemoryView>, r: RelationView) -> bool {
    has_id(memories, r.source_id) && has_id(memories, r.target_id)
}

/// The tables without the edges that dangle.
pub open spec fn anchored(t: Tables) -> Tables {
    Tables {
        memories: t.memories,
        relations: t.relations.filter(|r: RelationView| is_anchored(t.memories, r)),
    }
}

impl Tables {
    /// What always holds of the tables: identifiers are unique, so are edges,
    /// and no edge dangles.
    pub open spec fn valid(self) -> bool {
        &&& unique_ids(self.memories)
        &&& unique_edges(self.relations)
        &&& edges_anchored(self)
    }
}

/// The tables after one change.
pub open spec fn apply(t: Tables, c: ChangeView) -> Tables {
    match c {
        ChangeView::Insert { memory } => Tables { memories: t.memories.push(memory), ..t },
        ChangeView::SetStatus { id, status, at } => Tables {
            memories: t.memories.map_values(
                |m: MemoryView|
                    if m.id == id {
                        MemoryView { status: status, updated_at: at, ..m }
                    } else {
                        m
                    },
            ),
            ..t
        },
        ChangeView::Rewrite { id, status, body, at } => Tables {
            memories: t.memories.map_values(
                |m: MemoryView|
                    if m.id == id {
                        MemoryView { status: status, body: body, updated_at: at, ..m }
                    } else {
                        m
                    },
            ),
            ..t
        },
        ChangeView::Delete { id } => Tables {
            memories: t.memories.filter(|m: MemoryView| m.id != id),
            relations: t.relations.filter(|r: RelationView| !touches(r, id)),
        },
        ChangeView::PutRelation { relation } => Tables {
            relations: t.relations.filter(|r: RelationView| !same_edge(r, relation)).push(relation),
            ..t
        },
        ChangeView::PutEmbedding { id, vector } => t,
    }
}

/// The tables after a series of changes.
pub open spec fn replay(t: Tables, changes: Seq<ChangeView>) -> Tables
    decreases changes.len(),
{
    if changes.len() == 0 {
        t
    } else {
        apply(replay(t, changes.drop_last()), changes.last())
    }
}

/// A change that leaves valid tables valid: it inserts no identifier twice and
/// no edge that would dangle.
pub open spec fn admissible(t: Tables, c: ChangeView) -> bool {
    match c {
        ChangeView::Insert { memory } => !has_id(t.memories, memory.id),
        ChangeView::PutRelation { relation } => has_id(t.memories, relation.source_id) && has_id(
            t.memories,
            relation.target_id,
        ),
        _ => true,
    }
}

/// Two series of changes in a row are one series.
pub proof fn lemma_replay_concat(t: Tables, a: Seq<ChangeView>, b: Seq<ChangeView>)
    ensures
        replay(t, a + b) == replay(replay(t, a), b),
    decreases b.len(),
{
    if b.len() == 0 {
        assert(a + b =~= a);
    } else {
        lemma_replay_concat(t, a, b.drop_last());
        assert((a + b).drop_last() =~= a + b.drop_last());
    }
}

/// One more change at the end of a series.
pub proof fn lemma_replay_push(t: Tables, changes: Seq<ChangeView>, c: ChangeView)
    ensures
        replay(t, changes.push(c)) == apply(replay(t, changes), c),
{
    assert(changes.push(c).drop_last() =~= changes);
}

/// Where a filtered sequence takes its elements from, in the same order.
pub proof fn lemma_filter_order<A>(s: Seq<A>, keep: spec_fn(A) -> bool) -> (at: Seq<int>)
    ensures
        at.len() == s.filter(keep).len(),
        forall|i: int|
            0 <= i < at.len() ==> 0 <= #[trigger] at[i] < s.len() && s[at[i]] == s.filter(keep)[i],
        forall|i: int, j: int| 0 <= i < j < at.len() ==> #[trigger] at[i] < #[trigger] at[j],
    decreases s.len(),
{
    reveal(Seq::filter);
    if s.len() == 0 {
        Seq::empty()
    } else {
        let at = lemma_filter_order(s.drop_last(), keep);
        if keep(s.last()) {
            at.push(s.len() - 1)
        } else {
            at
        }
    }
}

/// The elements of a filtered sequence are those of the sequence that pass.
pub proof fn lemma_filter_elements<A>(s: Seq<A>, keep: spec_fn(A) -> bool)
    ensures
        forall|i: int|
            0 <= i < s.filter(keep).len() ==> keep(#[trigger] s.filter(keep)[i]) && s.contains(
                s.filter(keep)[i],
            ),
        forall|i: int|
            0 <= i < s.len() && keep(#[trigger] s[i]) ==> s.filter(keep).contains(s[i]),
{
    broadcast use vstd::seq_lib::group_filter_ensures;

    let at = lemma_filter_order(s, keep);
    assert forall|i: int| 0 <= i < s.filter(keep).len() implies keep(#[trigger] s.filter(keep)[i])
        && s.contains(s.filter(keep)[i]) by {
        assert(s[at[i]] == s.filter(keep)[i]);
    }
}

/// A filter over a sequence grown by one element.
pub proof fn lemma_filter_take<A>(s: Seq<A>, i: int, keep: spec_fn(A) -> bool)
    requires
        0 <= i < s.len(),
    ensures
        s.take(i + 1).filter(keep) == if keep(s[i]) {
            s.take(i).filter(keep).push(s[i])
        } else {
            s.take(i).filter(keep)
        },
{
    reveal(Seq::filter);
    assert(s.take(i + 1).drop_last() =~= s.take(i));
}

/// Without the edges that dangle no edge does.
pub proof fn lemma_anchored(t: Tables)
    ensures
        edges_anchored(anchored(t)),
{
    let keep = |r: RelationView| is_anchored(t.memories, r);
    lemma_filter_elements(t.relations, keep);
    let u = anchored(t);
    assert forall|i: int| 0 <= i < u.relations.len() implies has_id(
        u.memories,
        (#[trigger] u.relations[i]).source_id,
    ) && has_id(u.memories, u.relations[i].target_id) by {
        assert(keep(u.relations[i]));
    }
}

/// A search that misses misses every row.
pub proof fn lemma_find(memories: Seq<MemoryView>, id: Seq<char>)
    ensures
        find(memories, id) is Some == has_id(memories, id),
        find(memories, id) matches Some(m) ==> m.id == id && memories.contains(m),
    decreases memories.len(),
{
    if memories.len() > 0 {
        let init = memories.drop_last();
        lemma_find(init, id);
        if has_id(init, id) {
            let i = choose|i: int| 0 <= i < init.len() && (#[trigger] init[i]).id == id;
            assert(memories[i].id == id);
            let m = find(init, id)->0;
            let k = choose|k: int| 0 <= k < init.len() && init[k] == m;
            assert(memories[k] == m);
        } else {
            if memories.last().id == id {
                assert(memories[memories.len() - 1].id == id);
            } else if has_id(memories, id) {
                let i = choose|i: int| 0 <= i < memories.len() && (#[trigger] memories[i]).id == id;
                assert(init[i].id == id);
            }
        }
    }
}

/// In a table of unique identifiers a search finds the one row that has it.
pub proof fn lemma_find_unique(memories: Seq<MemoryView>, i: int)
    requires
        unique_ids(memories),
        0 <= i < memories.len(),
    ensures
        find(memories, memories[i].id) == Some(memories[i]),
{
    lemma_find(memories, memories[i].id);
    assert(has_id(memories, memories[i].id));
    let m = find(memories, memories[i].id)->0;
    let k = choose|k: int| 0 <= k < memories.len() && memories[k] == m;
    assert(memories[k].id == memories[i].id);
}

/// An admissible change keeps the tables valid.
pub proof fn lemma_apply_valid(t: Tables, c: ChangeView)
    requires
        t.valid(),
        admissible(t, c),
    ensures
        apply(t, c).valid(),
{
    let u = apply(t, c);
    match c {
        ChangeView::Insert { memory } => {
            assert forall|i: int, j: int| 0 <= i < j < u.memories.len() implies (
            #[trigger] u.memories[i]).id != (#[trigger] u.memories[j]).id by {
                if j == t.memories.len() {
                    assert(t.memories[i].id != memory.id);
                }
            }
            assert forall|i: int| 0 <= i < u.relations.len() implies has_id(
                u.memories,
                (#[trigger] u.relations[i]).source_id,
            ) && has_id(u.memories, u.relations[i].target_id) by {
                lemma_has_id_push(t.memories, memory, t.relations[i].source_id);
                lemma_has_id_push(t.memories, memory, t.relations[i].target_id);
            }
        },
        ChangeView::SetStatus { id, status, at } => {
            lemma_same_ids(t, u);
        },
        ChangeView::Rewrite { id, status, body, at } => {
            lemma_same_ids(t, u);
        },
        ChangeView::Delete { id } => {
            let kept = |m: MemoryView| m.id != id;
            let free = |r: RelationView| !touches(r, id);
            let at = lemma_filter_order(t.memories, kept);
            let on = lemma_filter_order(t.relations, free);
            lemma_filter_elements(t.memories, kept);
            lemma_filter_elements(t.relations, free);
            assert forall|i: int, j: int| 0 <= i < j < u.memories.len() implies (
            #[trigger] u.memories[i]).id != (#[trigger] u.memories[j]).id by {
                assert(at[i] < at[j]);
                assert(t.memories[at[i]].id != t.memories[at[j]].id);
            }
            assert forall|i: int, j: int| 0 <= i < j < u.relations.len() implies !same_edge(
                #[trigger] u.relations[i],
                #[trigger] u.relations[j],
            ) by {
                assert(on[i] < on[j]);
                assert(!same_edge(t.relations[on[i]], t.relations[on[j]]));
            }
            assert forall|i: int| 0 <= i < u.relations.len() implies has_id(
                u.memories,
                (#[trigger] u.relations[i]).source_id,
            ) && has_id(u.memories, u.relations[i].target_id) by {
                let r = t.relations[on[i]];
                assert(free(u.relations[i]));
                lemma_has_id_filtered(t.memories, id, r.source_id);
                lemma_has_id_filtered(t.memories, id, r.target_id);
            }
        },
        ChangeView::PutRelation { relation } => {
            let other = |r: RelationView| !same_edge(r, relation);
            let rest = t.relations.filter(other);
            let on = lemma_filter_order(t.relations, other);
            lemma_filter_elements(t.relations, other);
            assert forall|i: int, j: int| 0 <= i < j < u.relations.len() implies !same_edge(
                #[trigger] u.relations[i],
                #[trigger] u.relations[j],
            ) by {
                assert(u.relations[i] == rest[i]);
                assert(other(rest[i]));
                if j < rest.len() {
                    assert(on[i] < on[j]);
                    assert(!same_edge(t.relations[on[i]], t.relations[on[j]]));
                }
            }
            assert forall|i: int| 0 <= i < u.relations.len() implies has_id(
                u.memories,
                (#[trigger] u.relations[i]).source_id,
            ) && has_id(u.memories, u.relations[i].target_id) by {
                if i < rest.len() {
                    assert(t.relations[on[i]] == u.relations[i]);
                }
            }
        },
        ChangeView::PutEmbedding { id, vector } => {},
    }
}

/// A pushed row hides no identifier.
proof fn lemma_has_id_push(memories: Seq<MemoryView>, memory: MemoryView, id: Seq<char>)
    requires
        has_id(memories, id),
    ensures
        has_id(memories.push(memory), id),
{
    let i = choose|i: int| 0 <= i < memories.len() && (#[trigger] memories[i]).id == id;
    assert(memories.push(memory)[i].id == id);
}

/// Deleting one identifier keeps the others.
proof fn lemma_has_id_filtered(memories: Seq<MemoryView>, gone: Seq<char>, id: Seq<char>)
    requires
        has_id(memories, id),
        id != gone,
    ensures
        has_id(memories.filter(|m: MemoryView| m.id != gone), id),
{
    let keep = |m: MemoryView| m.id != gone;
    lemma_filter_elements(memories, keep);
    let i = choose|i: int| 0 <= i < memories.len() && (#[trigger] memories[i]).id == id;
    assert(keep(memories[i]));
    let kept = memories.filter(keep);
    let k = choose|k: int| 0 <= k < kept.len() && kept[k] == memories[i];
    assert(kept[k].id == id);
}

/// Tables whose memories keep their identifiers and whose edges stay.
proof fn lemma_same_ids(t: Tables, u: Tables)
    requires
        t.valid(),
        u.relations == t.relations,
        u.memories.len() == t.memories.len(),
        forall|i: int| 0 <= i < t.memories.len() ==> (#[trigger] u.memories[i]).id == t.memories[i].id,
    ensures
        u.valid(),
{
    assert forall|i: int, j: int| 0 <= i < j < u.memories.len() implies (
    #[trigger] u.memories[i]).id != (#[trigger] u.memories[j]).id by {
        assert(t.memories[i].id != t.memories[j].id);
    }
    assert forall|i: int| 0 <= i < u.relations.len() implies has_id(
        u.memories,
        (#[trigger] u.relations[i]).source_id,
    ) && has_id(u.memories, u.relations[i].target_id) by {
        let r = t.relations[i];
        let p = choose|p: int|
            0 <= p < t.memories.len() && (#[trigger] t.memories[p]).id == r.source_id;
        let q = choose|q: int|
            0 <= q < t.memories.len() && (#[trigger] t.memories[q]).id == r.target_id;
        assert(u.memories[p].id == r.source_id);
        assert(u.memories[q].id == r.target_id);
    }
}

} // verus!

//! What is read from the graph: neighbours, lists, the ready queue, counts.

use crate::models::{
    EdgeDirection, Memory, MemoryKind, MemoryRelation, MemoryStatus, MemoryView, RelatedEntity,
    RelatedView, RelationType, RelationView,
};
use crate::rows::{find_row, memory_rows, relation_rows};
use crate::tables::{find, lemma_filter_take, Tables};
use crate::text::{is_text_before, text_before};
use vstd::prelude::*;
use vstd::string::*;

verus! {

/// The values of neighbours.
pub open spec fn related_rows(related: Seq<RelatedEntity>) -> Seq<RelatedView> {
    related.map_values(|r: RelatedEntity| r@)
}

/// The memory `other`, seen along an edge.
pub open spec fn neighbour(
    memories: Seq<MemoryView>,
    other: Seq<char>,
    relation_type: RelationType,
    direction: EdgeDirection,
) -> RelatedView {
    let found = find(memories, other);
    RelatedView {
        relation_type: relation_type,
        target_id: other,
        target_title: match found {
            Some(m) => Some(m.title),
            None => None,
        },
        target_kind: match found {
            Some(m) => Some(m.kind),
            None => None,
        },
        target_status: match found {
            Some(m) => Some(m.status),
            None => None,
        },
        direction: direction,
    }
}

/// The targets of the edges that start at `id`.
pub open spec fn outgoing(t: Tables, id: Seq<char>) -> Seq<RelatedView> {
    t.relations.filter(|r: RelationView| r.source_id == id).map_values(
        |r: RelationView|
            neighbour(t.memories, r.target_id, r.relation_type, EdgeDirection::Outgoing),
    )
}

/// The sources of the edges that end at `id`.
pub open spec fn incoming(t: Tables, id: Seq<char>) -> Seq<RelatedView> {
    t.relations.filter(|r: RelationView| r.target_id == id).map_values(
        |r: RelationView|
            neighbour(t.memories, r.source_id, r.relation_type, EdgeDirection::Incoming),
    )
}

/// The neighbours of the memory `id`: first along its outgoing edges, then
/// along its incoming ones.
pub open spec fn related(t: Tables, id: Seq<char>) -> Seq<RelatedView> {
    outgoing(t, id) + incoming(t, id)
}

/// The memory `other`, seen along an edge.
fn see_neighbour(
    memories: &Vec<Memory>,
    other: &String,
    relation_type: RelationType,
    direction: EdgeDirection,
) -> (res: RelatedEntity)
    ensures
        res@ == neighbour(memory_rows(memories@), other@, relation_type, direction),
{
    match find_row(memories, other) {
        Some(m) => RelatedEntity {
            relation_type,
            target_id: other.clone(),
            target_title: Some(m.title.clone()),
            target_kind: Some(m.kind),
            target_status: Some(m.status),
            direction,
        },
        None => RelatedEntity {
            relation_type,
            target_id: other.clone(),
            target_title: None,
            target_kind: None,
            target_status: None,
            direction,
        },
    }
}

/// The neighbours of the memory `id`.
pub fn related_of(memories: &Vec<Memory>, relations: &Vec<MemoryRelation>, id: &str) -> (res: Vec<
    RelatedEntity,
>)
    ensures
        related_rows(res@) == related(
            Tables { memories: memory_rows(memories@), relations: relation_rows(relations@) },
            id@,
        ),
{
    let own = id.to_owned();
    let ghost t = Tables {
        memories: memory_rows(memories@),
        relations: relation_rows(relations@),
    };
    let ghost starts = |r: RelationView| r.source_id == id@;
    let ghost ends = |r: RelationView| r.target_id == id@;
    let ghost out_of = |r: RelationView|
        neighbour(t.memories, r.target_id, r.relation_type, EdgeDirection::Outgoing);
    let ghost in_of = |r: RelationView|
        neighbour(t.memories, r.source_id, r.relation_type, EdgeDirection::Incoming);
    let mut res: Vec<RelatedEntity> = Vec::new();
    let mut i: usize = 0;
    proof {
        assert(related_rows(res@) =~= t.relations.take(0).filter(starts).map_values(out_of));
    }
    while i < relations.len()
        invariant
            i <= relations@.len(),
            own@ == id@,
            t == (Tables {
                memories: memory_rows(memories@),
                relations: relation_rows(relations@),
            }),
            starts == (|r: RelationView| r.source_id == id@),
            out_of == (|r: RelationView|
                neighbour(t.memories, r.target_id, r.relation_type, EdgeDirection::Outgoing)),
            related_rows(res@) == t.relations.take(i as int).filter(starts).map_values(out_of),
        decreases relations@.len() - i,
    {
        proof {
            lemma_filter_take(t.relations, i as int, starts);
            assert(t.relations[i as int] == relations@[i as int]@);
        }
        if relations[i].source_id == own {
            let ghost before = related_rows(res@);
            let ghost edges = t.relations.take(i as int).filter(starts);
            res.push(
                see_neighbour(
                    memories,
                    &relations[i].target_id,
                    relations[i].relation_type,
                    EdgeDirection::Outgoing,
                ),
            );
            proof {
                let r = t.relations[i as int];
                assert(related_rows(res@) =~= before.push(out_of(r)));
                assert(edges.push(r).map_values(out_of) =~= edges.map_values(out_of).push(out_of(r)));
            }
        }
        i += 1;
    }
    proof {
        assert(t.relations.take(i as int) =~= t.relations);
    }
    let mut i: usize = 0;
    proof {
        assert(related_rows(res@) =~= outgoing(t, id@) + t.relations.take(0).filter(
            ends,
        ).map_values(in_of));
    }
    while i < relations.len()
        invariant
            i <= relations@.len(),
            own@ == id@,
            t == (Tables {
                memories: memory_rows(memories@),
                relations: relation_rows(relations@),
            }),
            ends == (|r: RelationView| r.target_id == id@),
            in_of == (|r: RelationView|
                neighbour(t.memories, r.source_id, r.relation_type, EdgeDirection::Incoming)),
            related_rows(res@) == outgoing(t, id@) + t.relations.take(i as int).filter(
                ends,
            ).map_values(in_of),
        decreases relations@.len() - i,
    {
        proof {
            lemma_filter_take(t.relations, i as int, ends);
            assert(t.relations[i as int] == relations@[i as int]@);
        }
        if relations[i].target_id == own {
            let ghost before = related_rows(res@);
            let ghost edges = t.relations.take(i as int).filter(ends);
            res.push(
                see_neighbour(
                    memories,
                    &relations[i].source_id,
                    relations[i].relation_type,
                    EdgeDirection::Incoming,
                ),
            );
            proof {
                let r = t.relations[i as int];
                assert(related_rows(res@) =~= before.push(in_of(r)));
                assert(edges.push(r).map_values(in_of) =~= edges.map_values(in_of).push(in_of(r)));
                assert((outgoing(t, id@) + edges.map_values(in_of)).push(in_of(r)) =~= outgoing(
                    t,
                    id@,
                ) + edges.map_values(in_of).push(in_of(r)));
            }
        }
        i += 1;
    }
    proof {
        assert(t.relations.take(i as int) =~= t.relations);
    }
    res
}

/// `m` put into rows that are ordered from the latest update to the earliest,
/// behind those that were updated at the same time.
pub open spec fn insert_by_recency(rows: Seq<MemoryView>, m: MemoryView) -> Seq<MemoryView>
    decreases rows.len(),
{
    if rows.len() > 0 && text_before(rows.last().updated_at, m.updated_at) {
        insert_by_recency(rows.drop_last(), m).push(rows.last())
    } else {
        rows.push(m)
    }
}

/// The rows from the latest update to the earliest; rows of the same time keep
/// their order.
pub open spec fn by_recency(rows: Seq<MemoryView>) -> Seq<MemoryView>
    decreases rows.len(),
{
    if rows.len() == 0 {
        Seq::empty()
    } else {
        insert_by_recency(by_recency(rows.drop_last()), rows.last())
    }
}

/// The first `n` elements, or all where there are fewer.
pub open spec fn first<A>(s: Seq<A>, n: nat) -> Seq<A> {
    if n <= s.len() {
        s.take(n as int)
    } else {
        s
    }
}

/// `s` with `m` between its first `p` elements and the rest.
proof fn lemma_insert_at(s: Seq<MemoryView>, m: MemoryView, p: int)
    requires
        0 <= p <= s.len(),
        p > 0 ==> !text_before(s[p - 1].updated_at, m.updated_at),
        forall|k: int| p <= k < s.len() ==> text_before((#[trigger] s[k]).updated_at, m.updated_at),
    ensures
        insert_by_recency(s, m) == s.insert(p, m),
    decreases s.len(),
{
    if p < s.len() {
        lemma_insert_at(s.drop_last(), m, p);
        assert(s.drop_last().insert(p, m).push(s.last()) =~= s.insert(p, m));
    } else {
        assert(s.push(m) =~= s.insert(p, m));
    }
}

/// Puts `m` into rows ordered by recency.
fn put_by_recency(rows: &mut Vec<Memory>, m: Memory)
    ensures
        memory_rows(final(rows)@) == insert_by_recency(memory_rows(old(rows)@), m@),
{
    let mut p: usize = rows.len();
    while p > 0 && is_text_before(rows[p - 1].updated_at.as_str(), m.updated_at.as_str())
        invariant
            p <= rows@.len(),
            rows@ == old(rows)@,
            forall|k: int|
                p <= k < rows@.len() ==> text_before(
                    (#[trigger] memory_rows(rows@)[k]).updated_at,
                    m@.updated_at,
                ),
        decreases p,
    {
        p -= 1;
    }
    let ghost before = memory_rows(rows@);
    let ghost row = m@;
    proof {
        lemma_insert_at(before, row, p as int);
    }
    rows.insert(p, m);
    proof {
        assert(memory_rows(rows@) =~= before.insert(p as int, row));
    }
}

/// Whether a memory passes the filters of a list.
pub open spec fn is_listed(
    m: MemoryView,
    status: Option<MemoryStatus>,
    kind: Option<MemoryKind>,
) -> bool {
    (status matches Some(s) ==> m.status == s) && (kind matches Some(k) ==> m.kind == k)
}

/// The latest `limit` memories that pass the filters.
pub open spec fn listing(
    memories: Seq<MemoryView>,
    status: Option<MemoryStatus>,
    kind: Option<MemoryKind>,
    limit: nat,
) -> Seq<MemoryView> {
    first(by_recency(memories.filter(|m: MemoryView| is_listed(m, status, kind))), limit)
}

/// The latest `limit` memories that pass the filters.
pub fn list_rows(
    memories: &Vec<Memory>,
    status: Option<MemoryStatus>,
    kind: Option<MemoryKind>,
    limit: usize,
) -> (res: Vec<Memory>)
    ensures
        memory_rows(res@) == listing(memory_rows(memories@), status, kind, limit as nat),
{
    let ghost rows = memory_rows(memories@);
    let ghost keep = |m: MemoryView| is_listed(m, status, kind);
    let mut res: Vec<Memory> = Vec::new();
    let mut i: usize = 0;
    proof {
        assert(rows.take(0).filter(keep) =~= Seq::<MemoryView>::empty());
        assert(memory_rows(res@) =~= by_recency(rows.take(0).filter(keep)));
    }
    while i < memories.len()
        invariant
            i <= memories@.len(),
            rows == memory_rows(memories@),
            keep == (|m: MemoryView| is_listed(m, status, kind)),
            memory_rows(res@) == by_recency(rows.take(i as int).filter(keep)),
        decreases memories@.len() - i,
    {
        proof {
            lemma_filter_take(rows, i as int, keep);
            assert(rows[i as int] == memories@[i as int]@);
        }
        let status_ok = match status {
            Some(s) => memories[i].status == s,
            None => true,
        };
        let kind_ok = match kind {
            Some(k) => memories[i].kind == k,
            None => true,
        };
        if status_ok && kind_ok {
            let ghost before = rows.take(i as int).filter(keep);
            put_by_recency(&mut res, memories[i].clone());
            proof {
                assert(before.push(rows[i as int]).drop_last() =~= before);
            }
        }
        i += 1;
    }
    proof {
        assert(rows.take(i as int) =~= rows);
    }
    cut(&mut res, limit);
    res
}

/// Keeps the first `limit` rows.
fn cut(rows: &mut Vec<Memory>, limit: usize)
    ensures
        memory_rows(final(rows)@) == first(memory_rows(old(rows)@), limit as nat),
{
    let ghost before = memory_rows(rows@);
    if limit < rows.len() {
        rows.truncate(limit);
        proof {
            assert(memory_rows(rows@) =~= before.take(limit as int));
        }
    } else {
        proof {
            assert(before =~= first(before, limit as nat));
        }
    }
}

/// Whether there is an active memory `id`.
pub open spec fn is_active(memories: Seq<MemoryView>, id: Seq<char>) -> bool {
    find(memories, id) matches Some(m) && m.status == MemoryStatus::Active
}

/// An edge by which an active memory blocks `id`.
pub open spec fn is_open_block(t: Tables, r: RelationView, id: Seq<char>) -> bool {
    r.relation_type == RelationType::Blocks && r.target_id == id && is_active(
        t.memories,
        r.source_id,
    )
}

/// Whether an active memory blocks `id`.
pub open spec fn is_blocked(t: Tables, id: Seq<char>) -> bool {
    exists|i: int| 0 <= i < t.relations.len() && is_open_block(t, #[trigger] t.relations[i], id)
}

/// Work that can be taken up: an active task or blocker that no active memory
/// blocks.
pub open spec fn is_ready(t: Tables, m: MemoryView) -> bool {
    m.status == MemoryStatus::Active && (m.kind == MemoryKind::Task || m.kind
        == MemoryKind::Blocker) && !is_blocked(t, m.id)
}

/// The latest `limit` memories that are ready.
pub open spec fn ready_listing(t: Tables, limit: nat) -> Seq<MemoryView> {
    first(by_recency(t.memories.filter(|m: MemoryView| is_ready(t, m))), limit)
}

/// Whether an active memory blocks `id`.
fn blocked(memories: &Vec<Memory>, relations: &Vec<MemoryRelation>, id: &String) -> (res: bool)
    ensures
        res == is_blocked(
            Tables { memories: memory_rows(memories@), relations: relation_rows(relations@) },
            id@,
        ),
{
    let ghost t = Tables {
        memories: memory_rows(memories@),
        relations: relation_rows(relations@),
    };
    let mut i: usize = 0;
    while i < relations.len()
        invariant
            i <= relations@.len(),
            t == (Tables {
                memories: memory_rows(memories@),
                relations: relation_rows(relations@),
            }),
            forall|k: int| 0 <= k < i ==> !is_open_block(t, #[trigger] t.relations[k], id@),
        decreases relations@.len() - i,
    {
        proof {
            assert(t.relations[i as int] == relations@[i as int]@);
        }
        if relations[i].relation_type == RelationType::Blocks && relations[i].target_id == *id {
            let active = match find_row(memories, &relations[i].source_id) {
                Some(m) => m.status == MemoryStatus::Active,
                None => false,
            };
            if active {
                proof {
                    assert(is_open_block(t, t.relations[i as int], id@));
                }
                return true;
            }
        }
        i += 1;
    }
    false
}

/// The latest `limit` memories that are ready.
pub fn ready_rows(memories: &Vec<Memory>, relations: &Vec<MemoryRelation>, limit: usize) -> (res:
    Vec<Memory>)
    ensures
        memory_rows(res@) == ready_listing(
            Tables { memories: memory_rows(memories@), relations: relation_rows(relations@) },
            limit as nat,
        ),
{
    let ghost t = Tables {
        memories: memory_rows(memories@),
        relations: relation_rows(relations@),
    };
    let ghost rows = t.memories;
    let ghost keep = |m: MemoryView| is_ready(t, m);
    let mut res: Vec<Memory> = Vec::new();
    let mut i: usize = 0;
    proof {
        assert(rows.take(0).filter(keep) =~= Seq::<MemoryView>::empty());
        assert(memory_rows(res@) =~= by_recency(rows.take(0).filter(keep)));
    }
    while i < memories.len()
        invariant
            i <= memories@.len(),
            t == (Tables {
                memories: memory_rows(memories@),
                relations: relation_rows(relations@),
            }),
            rows == t.memories,
            keep == (|m: MemoryView| is_ready(t, m)),
            memory_rows(res@) == by_recency(rows.take(i as int).filter(keep)),
        decreases memories@.len() - i,
    {
        proof {
            lemma_filter_take(rows, i as int, keep);
            assert(rows[i as int] == memories@[i as int]@);
        }
        let m = &memories[i];
        if m.status == MemoryStatus::Active && (m.kind == MemoryKind::Task || m.kind
            == MemoryKind::Blocker) && !blocked(memories, relations, &m.id) {
            let ghost before = rows.take(i as int).filter(keep);
            put_by_recency(&mut res, m.clone());
            proof {
                assert(before.push(rows[i as int]).drop_last() =~= before);
            }
        }
        i += 1;
    }
    proof {
        assert(rows.take(i as int) =~= rows);
    }
    cut(&mut res, limit);
    res
}

/// How many memories are in the state.
pub open spec fn status_count(memories: Seq<MemoryView>, status: MemoryStatus) -> nat {
    memories.filter(|m: MemoryView| m.status == status).len()
}

/// How many edges are of the type.
pub open spec fn type_count(relations: Seq<RelationView>, relation_type: RelationType) -> nat {
    relations.filter(|r: RelationView| r.relation_type == relation_type).len()
}

/// A count as the database keeps counts: no more than 64 bits with a sign hold.
pub open spec fn count_value(n: nat) -> i64 {
    if n <= i64::MAX {
        n as i64
    } else {
        i64::MAX
    }
}

/// A count as the database keeps counts.
pub fn to_count(n: u64) -> (res: i64)
    ensures
        res == count_value(n as nat),
{
    if n <= i64::MAX as u64 {
        n as i64
    } else {
        i64::MAX
    }
}

/// How many memories are in the state.
pub fn count_status(memories: &Vec<Memory>, status: MemoryStatus) -> (res: u64)
    ensures
        res == status_count(memory_rows(memories@), status),
{
    let ghost rows = memory_rows(memories@);
    let ghost keep = |m: MemoryView| m.status == status;
    let mut res: u64 = 0;
    let mut i: usize = 0;
    proof {
        assert(rows.take(0).filter(keep) =~= Seq::<MemoryView>::empty());
    }
    while i < memories.len()
        invariant
            i <= memories@.len(),
            rows == memory_rows(memories@),
            keep == (|m: MemoryView| m.status == status),
            res <= i,
            res == rows.take(i as int).filter(keep).len(),
        decreases memories@.len() - i,
    {
        proof {
            lemma_filter_take(rows, i as int, keep);
            assert(rows[i as int] == memories@[i as int]@);
        }
        if memories[i].status == status {
            res += 1;
        }
        i += 1;
    }
    proof {
        assert(rows.take(i as int) =~= rows);
    }
    res
}

/// How many edges are of the type.
pub fn count_type(relations: &Vec<MemoryRelation>, relation_type: RelationType) -> (res: u64)
    ensures
        res == type_count(relation_rows(relations@), relation_type),
{
    let ghost rows = relation_rows(relations@);
    let ghost keep = |r: RelationView| r.relation_type == relation_type;
    let mut res: u64 = 0;
    let mut i: usize = 0;
    proof {
        assert(rows.take(0).filter(keep) =~= Seq::<RelationView>::empty());
    }
    while i < relations.len()
        invariant
            i <= relations@.len(),
            rows == relation_rows(relations@),
            keep == (|r: RelationView| r.relation_type == relation_type),
            res <= i,
            res == rows.take(i as int).filter(keep).len(),
        decreases relations@.len() - i,
    {
        proof {
            lemma_filter_take(rows, i as int, keep);
            assert(rows[i as int] == relations@[i as int]@);
        }
        if relations[i].relation_type == relation_type {
            res += 1;
        }
        i += 1;
    }
    proof {
        assert(rows.take(i as int) =~= rows);
    }
    res
}

} // verus!

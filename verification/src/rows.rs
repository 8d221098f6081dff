//! The rows of the graph's tables in memory.

use crate::models::{Memory, MemoryRelation, MemoryView, RelationView};
use crate::tables::{find, has_id, is_anchored, lemma_filter_take, same_edge, touches};
use vstd::prelude::*;
use vstd::string::*;

verus! {

/// The values of memories.
pub open spec fn memory_rows(memories: Seq<Memory>) -> Seq<MemoryView> {
    memories.map_values(|m: Memory| m@)
}

/// The values of edges.
pub open spec fn relation_rows(relations: Seq<MemoryRelation>) -> Seq<RelationView> {
    relations.map_values(|r: MemoryRelation| r@)
}

/// The memory `id`.
pub fn find_row<'a>(memories: &'a Vec<Memory>, id: &String) -> (res: Option<&'a Memory>)
    ensures
        match find(memory_rows(memories@), id@) {
            Some(m) => res is Some && res->0@ == m,
            None => res is None,
        },
{
    let mut res: Option<&Memory> = None;
    let mut i: usize = 0;
    let ghost rows = memory_rows(memories@);
    proof {
        assert(rows.take(0) =~= Seq::empty());
    }
    while i < memories.len()
        invariant
            i <= memories@.len(),
            rows == memory_rows(memories@),
            match find(rows.take(i as int), id@) {
                Some(m) => res is Some && res->0@ == m,
                None => res is None,
            },
        decreases memories@.len() - i,
    {
        proof {
            assert(rows.take(i + 1).drop_last() =~= rows.take(i as int));
            assert(rows.take(i + 1).last() == memories@[i as int]@);
        }
        if res.is_none() && memories[i].id == *id {
            res = Some(&memories[i]);
        }
        i += 1;
    }
    proof {
        assert(rows.take(i as int) =~= rows);
    }
    res
}

/// Whether a memory has the identifier `id`.
pub fn contains_id(memories: &Vec<Memory>, id: &String) -> (res: bool)
    ensures
        res == has_id(memory_rows(memories@), id@),
{
    let mut i: usize = 0;
    while i < memories.len()
        invariant
            i <= memories@.len(),
            forall|k: int| 0 <= k < i ==> (#[trigger] memory_rows(memories@)[k]).id != id@,
        decreases memories@.len() - i,
    {
        if memories[i].id == *id {
            proof {
                assert(memory_rows(memories@)[i as int].id == id@);
            }
            return true;
        }
        i += 1;
    }
    false
}

/// Whether two edges have the same ends and type.
pub fn is_same_edge(a: &MemoryRelation, b: &MemoryRelation) -> (res: bool)
    ensures
        res == same_edge(a@, b@),
{
    a.source_id == b.source_id && a.target_id == b.target_id && a.relation_type == b.relation_type
}

/// The memories without the one named `id`.
pub fn memories_except(memories: &Vec<Memory>, id: &String) -> (res: Vec<Memory>)
    ensures
        memory_rows(res@) == memory_rows(memories@).filter(|m: MemoryView| m.id != id@),
{
    let ghost keep = |m: MemoryView| m.id != id@;
    let mut res: Vec<Memory> = Vec::new();
    let mut i: usize = 0;
    proof {
        assert(memory_rows(res@) =~= memory_rows(memories@).take(0).filter(keep));
    }
    while i < memories.len()
        invariant
            i <= memories@.len(),
            keep == (|m: MemoryView| m.id != id@),
            memory_rows(res@) == memory_rows(memories@).take(i as int).filter(keep),
        decreases memories@.len() - i,
    {
        proof {
            lemma_filter_take(memory_rows(memories@), i as int, keep);
        }
        if memories[i].id != *id {
            let ghost kept = memory_rows(res@);
            res.push(memories[i].clone());
            proof {
                assert(memory_rows(res@) =~= kept.push(memory_rows(memories@)[i as int]));
            }
        }
        i += 1;
    }
    proof {
        assert(memory_rows(memories@).take(i as int) =~= memory_rows(memories@));
    }
    res
}

/// The edges that neither start nor end at `id`.
pub fn relations_off(relations: &Vec<MemoryRelation>, id: &String) -> (res: Vec<MemoryRelation>)
    ensures
        relation_rows(res@) == relation_rows(relations@).filter(
            |r: RelationView| !touches(r, id@),
        ),
{
    let ghost keep = |r: RelationView| !touches(r, id@);
    let mut res: Vec<MemoryRelation> = Vec::new();
    let mut i: usize = 0;
    proof {
        assert(relation_rows(res@) =~= relation_rows(relations@).take(0).filter(keep));
    }
    while i < relations.len()
        invariant
            i <= relations@.len(),
            keep == (|r: RelationView| !touches(r, id@)),
            relation_rows(res@) == relation_rows(relations@).take(i as int).filter(keep),
        decreases relations@.len() - i,
    {
        proof {
            lemma_filter_take(relation_rows(relations@), i as int, keep);
        }
        if relations[i].source_id != *id && relations[i].target_id != *id {
            let ghost kept = relation_rows(res@);
            res.push(relations[i].clone());
            proof {
                assert(relation_rows(res@) =~= kept.push(relation_rows(relations@)[i as int]));
            }
        }
        i += 1;
    }
    proof {
        assert(relation_rows(relations@).take(i as int) =~= relation_rows(relations@));
    }
    res
}

/// The edges with other ends or another type than `relation`.
pub fn relations_other_than(relations: &Vec<MemoryRelation>, relation: &MemoryRelation) -> (res: Vec<
    MemoryRelation,
>)
    ensures
        relation_rows(res@) == relation_rows(relations@).filter(
            |r: RelationView| !same_edge(r, relation@),
        ),
{
    let ghost keep = |r: RelationView| !same_edge(r, relation@);
    let mut res: Vec<MemoryRelation> = Vec::new();
    let mut i: usize = 0;
    proof {
        assert(relation_rows(res@) =~= relation_rows(relations@).take(0).filter(keep));
    }
    while i < relations.len()
        invariant
            i <= relations@.len(),
            keep == (|r: RelationView| !same_edge(r, relation@)),
            relation_rows(res@) == relation_rows(relations@).take(i as int).filter(keep),
        decreases relations@.len() - i,
    {
        proof {
            lemma_filter_take(relation_rows(relations@), i as int, keep);
        }
        if !is_same_edge(&relations[i], relation) {
            let ghost kept = relation_rows(res@);
            res.push(relations[i].clone());
            proof {
                assert(relation_rows(res@) =~= kept.push(relation_rows(relations@)[i as int]));
            }
        }
        i += 1;
    }
    proof {
        assert(relation_rows(relations@).take(i as int) =~= relation_rows(relations@));
    }
    res
}

/// The edges between two memories.
pub fn relations_anchored(memories: &Vec<Memory>, relations: &Vec<MemoryRelation>) -> (res: Vec<
    MemoryRelation,
>)
    ensures
        relation_rows(res@) == relation_rows(relations@).filter(
            |r: RelationView| is_anchored(memory_rows(memories@), r),
        ),
{
    let ghost rows = relation_rows(relations@);
    let ghost keep = |r: RelationView| is_anchored(memory_rows(memories@), r);
    let mut res: Vec<MemoryRelation> = Vec::new();
    let mut i: usize = 0;
    proof {
        assert(rows.take(0).filter(keep) =~= Seq::<RelationView>::empty());
        assert(relation_rows(res@) =~= rows.take(0).filter(keep));
    }
    while i < relations.len()
        invariant
            i <= relations@.len(),
            rows == relation_rows(relations@),
            keep == (|r: RelationView| is_anchored(memory_rows(memories@), r)),
            relation_rows(res@) == rows.take(i as int).filter(keep),
        decreases relations@.len() - i,
    {
        proof {
            lemma_filter_take(rows, i as int, keep);
            assert(rows[i as int] == relations@[i as int]@);
        }
        if contains_id(memories, &relations[i].source_id) && contains_id(
            memories,
            &relations[i].target_id,
        ) {
            let ghost before = relation_rows(res@);
            res.push(relations[i].clone());
            proof {
                assert(relation_rows(res@) =~= before.push(rows[i as int]));
            }
        }
        i += 1;
    }
    proof {
        assert(rows.take(i as int) =~= rows);
    }
    res
}

} // verus!

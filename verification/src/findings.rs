//! What is listed, found and counted, told by the rows of the tables.

use crate::models::{
    EdgeDirection, MemoryKind, MemoryStatus, MemoryView, RelationType, RelationView,
};
use crate::queries::{
    by_recency, count_value, first, is_blocked, is_open_block, is_ready, listing, ready_listing,
    related, status_count, type_count,
};
use crate::reading::{
    law_listing, law_neighbours_are_current, law_ready, law_search, lemma_by_recency,
    lemma_insert_by_recency, lemma_type_names_differ,
};
use crate::search::{
    clamped, is_match, matched, nearest, search_results, terms, HitView, SearchView,
};
use crate::store::type_counts;
use crate::tables::{
    find, lemma_filter_elements, lemma_filter_order, lemma_find, lemma_find_unique, unique_ids,
    Tables,
};
use crate::text::text_before;
use vstd::prelude::*;

verus! {

/// Ordering by recency brings no identifier in twice.
proof fn lemma_recent_ids(rows: Seq<MemoryView>)
    requires
        unique_ids(rows),
    ensures
        unique_ids(by_recency(rows)),
    decreases rows.len(),
{
    if rows.len() > 0 {
        let init = rows.drop_last();
        let m = rows.last();
        assert(unique_ids(init));
        lemma_recent_ids(init);
        lemma_by_recency(init);
        let sorted = by_recency(init);
        let p = lemma_insert_by_recency(sorted, m);
        let res = sorted.insert(p, m);
        assert forall|i: int| 0 <= i < sorted.len() implies (#[trigger] sorted[i]).id != m.id by {
            assert(sorted.contains(sorted[i]));
            let k = choose|k: int| 0 <= k < init.len() && init[k] == sorted[i];
            assert(rows[k].id != rows[rows.len() - 1].id);
        }
        assert forall|i: int, j: int| 0 <= i < j < res.len() implies (#[trigger] res[i]).id != (
        #[trigger] res[j]).id by {
            let a = if i < p {
                i
            } else {
                i - 1
            };
            let b = if j < p {
                j
            } else {
                j - 1
            };
            if i == p {
                assert(res[j] == sorted[b]);
            } else if j == p {
                assert(res[i] == sorted[a]);
            } else {
                assert(res[i] == sorted[a] && res[j] == sorted[b]);
            }
        }
    }
}

/// What passes a filter has its identifiers from the table.
proof fn lemma_filtered_ids(memories: Seq<MemoryView>, keep: spec_fn(MemoryView) -> bool)
    requires
        unique_ids(memories),
    ensures
        unique_ids(memories.filter(keep)),
{
    let rows = memories.filter(keep);
    let at = lemma_filter_order(memories, keep);
    assert forall|i: int, j: int| 0 <= i < j < rows.len() implies (#[trigger] rows[i]).id != (
    #[trigger] rows[j]).id by {
        assert(at[i] < at[j]);
        assert(memories[at[i]].id != memories[at[j]].id);
    }
}

/// A list holds memories of the table, each in the state and of the kind that
/// were asked for, each once, from the latest update to the earliest. It holds
/// no more than the limit, and leaves one out only where it is full of others
/// that were not updated before it.
pub proof fn law_listed_fields(
    t: Tables,
    status: Option<MemoryStatus>,
    kind: Option<MemoryKind>,
    limit: nat,
    i: int,
    j: int,
    m: MemoryView,
)
    ensures
        ({
            let l = listing(t.memories, status, kind, limit);
            &&& l.len() <= limit
            &&& 0 <= i < l.len() ==> {
                &&& t.memories.contains(l[i])
                &&& status matches Some(s) ==> l[i].status == s
                &&& kind matches Some(k) ==> l[i].kind == k
            }
            &&& 0 <= i < j < l.len() ==> !text_before(l[i].updated_at, l[j].updated_at)
            &&& t.valid() && 0 <= i < j < l.len() ==> l[i].id != l[j].id
            &&& t.memories.contains(m) && (status matches Some(s) ==> m.status == s) && (
            kind matches Some(k) ==> m.kind == k) ==> l.contains(m) || (l.len() == limit && (0 <= i
                < l.len() ==> !text_before(l[i].updated_at, m.updated_at)))
        }),
{
    let l = listing(t.memories, status, kind, limit);
    law_listing(t, status, kind, limit, m);
    if 0 <= i < l.len() {
        assert(l.contains(l[i]));
        law_listing(t, status, kind, limit, l[i]);
    }
    if t.valid() && 0 <= i < j < l.len() {
        let keep = |m: MemoryView| crate::queries::is_listed(m, status, kind);
        lemma_filtered_ids(t.memories, keep);
        lemma_recent_ids(t.memories.filter(keep));
        let all = by_recency(t.memories.filter(keep));
        assert(l[i] == all[i] && l[j] == all[j]);
    }
}

/// Rows of the same update keep the order of their recording: a list without
/// filters and limit of rows that were all updated at once is the table.
pub proof fn law_listing_is_stable(t: Tables, limit: nat)
    requires
        limit >= t.memories.len(),
        forall|i: int, j: int|
            0 <= i < t.memories.len() && 0 <= j < t.memories.len() ==> (
            #[trigger] t.memories[i]).updated_at == (#[trigger] t.memories[j]).updated_at,
    ensures
        listing(t.memories, None, None, limit) == t.memories,
{
    let keep = |m: MemoryView| crate::queries::is_listed(m, None, None);
    crate::laws::lemma_filter_all(t.memories, keep);
    lemma_stable(t.memories);
    assert(first(t.memories, limit) =~= t.memories);
}

proof fn lemma_stable(rows: Seq<MemoryView>)
    requires
        forall|i: int, j: int|
            0 <= i < rows.len() && 0 <= j < rows.len() ==> (#[trigger] rows[i]).updated_at == (
            #[trigger] rows[j]).updated_at,
    ensures
        by_recency(rows) == rows,
    decreases rows.len(),
{
    if rows.len() > 0 {
        let init = rows.drop_last();
        assert forall|i: int, j: int| 0 <= i < init.len() && 0 <= j < init.len() implies (
        #[trigger] init[i]).updated_at == (#[trigger] init[j]).updated_at by {
            assert(rows[i].updated_at == rows[j].updated_at);
        }
        lemma_stable(init);
        let m = rows.last();
        if init.len() > 0 {
            assert(rows[init.len() - 1].updated_at == rows[rows.len() - 1].updated_at);
            if text_before(m.updated_at, m.updated_at) {
                crate::text::lemma_text_before_asymmetric(m.updated_at, m.updated_at);
            }
        }
        assert(init.push(m) =~= rows);
    } else {
        assert(rows =~= Seq::empty());
    }
}

/// A longer list starts with the shorter one.
pub proof fn law_longer_list(
    t: Tables,
    status: Option<MemoryStatus>,
    kind: Option<MemoryKind>,
    limit: nat,
    more: nat,
)
    requires
        limit <= more,
    ensures
        ({
            let short = listing(t.memories, status, kind, limit);
            let long = listing(t.memories, status, kind, more);
            short.len() <= long.len() && long.take(short.len() as int) == short && (short.len()
                < limit ==> long == short)
        }),
{
    let short = listing(t.memories, status, kind, limit);
    let long = listing(t.memories, status, kind, more);
    assert(long.take(short.len() as int) =~= short);
}

/// An edge by which the memory at `s` stops `id`: it is of type blocks, leads to
/// `id`, and comes from a memory in the active state, of whatever kind.
pub open spec fn stops(t: Tables, e: int, s: int, id: Seq<char>) -> bool {
    &&& 0 <= e < t.relations.len()
    &&& 0 <= s < t.memories.len()
    &&& t.relations[e].relation_type == RelationType::Blocks
    &&& t.relations[e].target_id == id
    &&& t.relations[e].source_id == t.memories[s].id
    &&& t.memories[s].status == MemoryStatus::Active
}

/// What is ready is an active task or blocker of the table that no edge from an
/// active memory, of whatever kind, stops; every one of these is listed unless
/// the list is full, and none twice.
pub proof fn law_ready_fields(t: Tables, limit: nat, i: int, j: int, m: MemoryView, e: int, s: int)
    requires
        t.valid(),
    ensures
        ({
            let l = ready_listing(t, limit);
            &&& l.len() <= limit
            &&& 0 <= i < l.len() ==> {
                &&& t.memories.contains(l[i])
                &&& l[i].status == MemoryStatus::Active
                &&& l[i].kind == MemoryKind::Task || l[i].kind == MemoryKind::Blocker
                &&& !stops(t, e, s, l[i].id)
            }
            &&& stops(t, e, s, m.id) ==> !l.contains(m)
            &&& 0 <= i < j < l.len() ==> l[i].id != l[j].id && !text_before(
                l[i].updated_at,
                l[j].updated_at,
            )
            &&& t.memories.contains(m) && m.status == MemoryStatus::Active && (m.kind
                == MemoryKind::Task || m.kind == MemoryKind::Blocker) && (forall|a: int, b: int|
                !stops(t, a, b, m.id)) ==> l.contains(m) || (l.len() == limit && (0 <= i < l.len()
                ==> !text_before(l[i].updated_at, m.updated_at)))
        }),
{
    let l = ready_listing(t, limit);
    law_ready(t, limit, m);
    if 0 <= i < l.len() {
        assert(l.contains(l[i]));
        law_ready(t, limit, l[i]);
        if stops(t, e, s, l[i].id) {
            lemma_find_unique(t.memories, s);
            assert(is_open_block(t, t.relations[e], l[i].id));
        }
    }
    if stops(t, e, s, m.id) {
        lemma_find_unique(t.memories, s);
        assert(is_open_block(t, t.relations[e], m.id));
    }
    if 0 <= i < j < l.len() {
        let keep = |m: MemoryView| is_ready(t, m);
        lemma_filtered_ids(t.memories, keep);
        lemma_recent_ids(t.memories.filter(keep));
        let all = by_recency(t.memories.filter(keep));
        assert(l[i] == all[i] && l[j] == all[j]);
    }
    if (forall|a: int, b: int| !stops(t, a, b, m.id)) && is_blocked(t, m.id) {
        let a = choose|a: int|
            0 <= a < t.relations.len() && is_open_block(t, #[trigger] t.relations[a], m.id);
        let src = t.relations[a].source_id;
        lemma_find(t.memories, src);
        let found = find(t.memories, src)->0;
        let b = choose|b: int| 0 <= b < t.memories.len() && t.memories[b] == found;
        assert(stops(t, a, b, m.id));
    }
}

/// The limit of an index: at least one, at most a hundred.
pub open spec fn within_index(limit: nat) -> nat {
    if limit == 0 {
        1
    } else if limit < 100 {
        limit
    } else {
        100
    }
}

/// A search gives memories of the table as they are, of the kind that was asked
/// for, active unless others were asked for too, each with its neighbours, and no
/// more than the limit.
pub proof fn law_search_fields(t: Tables, o: SearchView, hits: Seq<HitView>, i: int)
    requires
        t.valid(),
    ensures
        ({
            let results = search_results(t, o, hits);
            &&& 0 <= i < results.len() ==> {
                &&& t.memories.contains(results[i].memory)
                &&& o.kind matches Some(k) ==> results[i].memory.kind == k
                &&& !o.include_resolved ==> results[i].memory.status == MemoryStatus::Active
                &&& results[i].relations == related(t, results[i].memory.id)
            }
            &&& terms(o.query).len() > 0 ==> results.len() <= within_index(o.limit)
            &&& terms(o.query).len() == 0 ==> results.len() <= o.limit
        }),
{
    let results = search_results(t, o, hits);
    if 0 <= i < results.len() {
        law_search(t, o, hits, i);
        lemma_find(t.memories, results[i].memory.id);
    }
    if results.len() > 0 {
        law_search(t, o, hits, 0);
    }
}

/// Whether the hit `h` is of the memory `m` and the search is for it.
pub open spec fn is_sought(
    m: MemoryView,
    h: HitView,
    include_resolved: bool,
    kind: Option<MemoryKind>,
) -> bool {
    &&& m.id == h.id
    &&& include_resolved || m.status == MemoryStatus::Active
    &&& kind is None || kind == Some(m.kind)
}

/// What an index finds comes in the order of its hits, each with its score, and
/// every hit that the search is for is there unless the limit is reached.
proof fn lemma_matched_fields(
    t: Tables,
    hits: Seq<HitView>,
    include_resolved: bool,
    kind: Option<MemoryKind>,
    limit: nat,
    k: int,
    p: int,
) -> (at: Seq<int>)
    requires
        t.valid(),
    ensures
        ({
            let results = matched(t, hits, include_resolved, kind, limit);
            &&& at.len() == results.len()
            &&& results.len() <= limit
            &&& forall|i: int|
                0 <= i < at.len() ==> 0 <= #[trigger] at[i] < hits.len() && results[i].memory.id
                    == hits[at[i]].id && results[i].rank == hits[at[i]].score
            &&& forall|i: int, j: int| 0 <= i < j < at.len() ==> #[trigger] at[i] < #[trigger] at[j]
            &&& 0 <= k < hits.len() && 0 <= p < t.memories.len() && is_sought(
                t.memories[p],
                hits[k],
                include_resolved,
                kind,
            ) && results.len() < limit ==> at.contains(k)
        }),
{
    let keep = |h: HitView| is_match(t.memories, h, include_resolved, kind);
    let results = matched(t, hits, include_resolved, kind, limit);
    let found = hits.filter(keep);
    let all = lemma_filter_order(hits, keep);
    let at = all.take(results.len() as int);
    lemma_filter_elements(hits, keep);
    assert forall|i: int| 0 <= i < at.len() implies 0 <= #[trigger] at[i] < hits.len()
        && results[i].memory.id == hits[at[i]].id && results[i].rank == hits[at[i]].score by {
        assert(at[i] == all[i]);
        assert(keep(found[i]));
        lemma_find(t.memories, found[i].id);
    }
    if 0 <= k < hits.len() && 0 <= p < t.memories.len() && is_sought(
        t.memories[p],
        hits[k],
        include_resolved,
        kind,
    ) && results.len() < limit {
        lemma_find_unique(t.memories, p);
        assert(keep(hits[k]));
        assert(found.len() == results.len());
        lemma_order_complete(hits, keep, all, k);
        assert(at =~= all);
    }
    at
}

/// Every place whose element passes a filter is among the places that it takes
/// elements from.
proof fn lemma_order_complete(
    s: Seq<HitView>,
    keep: spec_fn(HitView) -> bool,
    at: Seq<int>,
    k: int,
)
    requires
        at.len() == s.filter(keep).len(),
        forall|i: int|
            0 <= i < at.len() ==> 0 <= #[trigger] at[i] < s.len() && s[at[i]] == s.filter(keep)[i],
        forall|i: int, j: int| 0 <= i < j < at.len() ==> #[trigger] at[i] < #[trigger] at[j],
        0 <= k < s.len(),
        keep(s[k]),
    ensures
        at.contains(k),
    decreases s.len(),
{
    reveal(Seq::filter);
    let init = s.drop_last();
    let n = s.len() - 1;
    let last = at.len() - 1;
    lemma_filter_elements(s, keep);
    if keep(s.last()) {
        if at[last] == n {
            let front = at.drop_last();
            if k == n {
                assert(at[last] == k);
            } else {
                assert forall|i: int| 0 <= i < front.len() implies 0 <= #[trigger] front[i]
                    < init.len() && init[front[i]] == init.filter(keep)[i] by {
                    assert(at[i] < at[last]);
                    assert(s[at[i]] == s.filter(keep)[i]);
                }
                lemma_order_complete(init, keep, front, k);
                let i = choose|i: int| 0 <= i < front.len() && front[i] == k;
                assert(at[i] == k);
            }
        } else {
            lemma_at_most(init, keep, at);
        }
    } else {
        if at.len() > 0 && at[last] == n {
            assert(s[at[last]] == s.filter(keep)[last]);
            assert(keep(s.filter(keep)[last]));
        }
        assert forall|i: int| 0 <= i < at.len() implies 0 <= #[trigger] at[i] < init.len()
            && init[at[i]] == init.filter(keep)[i] by {
            if i < last {
                assert(at[i] < at[last]);
            }
        }
        lemma_order_complete(init, keep, at, k);
    }
}

/// No more places than elements that pass hold elements that pass.
proof fn lemma_at_most(s: Seq<HitView>, keep: spec_fn(HitView) -> bool, at: Seq<int>)
    requires
        forall|i: int| 0 <= i < at.len() ==> 0 <= #[trigger] at[i] <= s.len(),
        at.len() > 0 ==> at.last() < s.len(),
        forall|i: int| 0 <= i < at.len() && at[i] < s.len() ==> keep(s[#[trigger] at[i]]),
        forall|i: int, j: int| 0 <= i < j < at.len() ==> #[trigger] at[i] < #[trigger] at[j],
    ensures
        at.len() <= s.filter(keep).len(),
    decreases s.len(),
{
    reveal(Seq::filter);
    if at.len() > 0 {
        let last = at.len() - 1;
        let init = s.drop_last();
        assert forall|i: int| 0 <= i < at.len() implies #[trigger] at[i] < s.len() by {
            if i < last {
                assert(at[i] < at[last]);
            }
        }
        if at[last] == s.len() - 1 {
            let front = at.drop_last();
            assert forall|i: int| 0 <= i < front.len() implies 0 <= #[trigger] front[i]
                <= init.len() && (front[i] < init.len() ==> keep(init[front[i]])) by {
                assert(at[i] < at[last]);
                assert(keep(s[at[i]]));
            }
            if front.len() > 0 {
                assert(at[last - 1] < at[last]);
            }
            lemma_at_most(init, keep, front);
            assert(keep(s[at[last]]));
        } else {
            assert forall|i: int| 0 <= i < at.len() implies 0 <= #[trigger] at[i] <= init.len()
                && (at[i] < init.len() ==> keep(init[at[i]])) by {
                assert(keep(s[at[i]]));
            }
            lemma_at_most(init, keep, at);
        }
    }
}

/// A search by text gives the hits of the index, in their order and with their
/// scores, and every hit of a memory that it is for, unless the limit is reached.
pub proof fn law_search_follows_hits(
    t: Tables,
    o: SearchView,
    hits: Seq<HitView>,
    k: int,
    p: int,
) -> (at: Seq<int>)
    requires
        t.valid(),
        terms(o.query).len() > 0,
    ensures
        ({
            let results = search_results(t, o, hits);
            &&& at.len() == results.len()
            &&& forall|i: int|
                0 <= i < at.len() ==> 0 <= #[trigger] at[i] < hits.len() && results[i].memory.id
                    == hits[at[i]].id && results[i].rank == hits[at[i]].score
            &&& forall|i: int, j: int| 0 <= i < j < at.len() ==> #[trigger] at[i] < #[trigger] at[j]
            &&& 0 <= k < hits.len() && 0 <= p < t.memories.len() && is_sought(
                t.memories[p],
                hits[k],
                o.include_resolved,
                o.kind,
            ) && results.len() < within_index(o.limit) ==> at.contains(k)
        }),
{
    lemma_matched_fields(t, hits, o.include_resolved, o.kind, clamped(o.limit), k, p)
}

/// A search without terms gives the latest memories that it is for, each with a
/// score of nought.
pub proof fn law_search_without_terms(
    t: Tables,
    o: SearchView,
    hits: Seq<HitView>,
    i: int,
    j: int,
    m: MemoryView,
)
    requires
        t.valid(),
        terms(o.query).len() == 0,
    ensures
        ({
            let results = search_results(t, o, hits);
            &&& 0 <= i < results.len() ==> results[i].rank == 0
            &&& 0 <= i < j < results.len() ==> results[i].memory.id != results[j].memory.id
                && !text_before(results[i].memory.updated_at, results[j].memory.updated_at)
            &&& t.memories.contains(m) && (o.include_resolved || m.status == MemoryStatus::Active)
                && (o.kind matches Some(k) ==> m.kind == k) && results.len() < o.limit ==> exists|
                q: int,
            |
                0 <= q < results.len() && (#[trigger] results[q]).memory == m
        }),
{
    let results = search_results(t, o, hits);
    let status = if o.include_resolved {
        None
    } else {
        Some(MemoryStatus::Active)
    };
    let l = listing(t.memories, status, o.kind, o.limit);
    law_listed_fields(t, status, o.kind, o.limit, i, j, m);
    if l.contains(m) {
        let q = choose|q: int| 0 <= q < l.len() && l[q] == m;
        assert(results[q].memory == m);
    }
}

/// A search by similarity gives the hits of the index that are memories of the
/// table, whatever their state and kind, in the order of the hits and each with
/// its distance and its neighbours.
pub proof fn law_nearest_follows_hits(
    t: Tables,
    hits: Seq<HitView>,
    limit: nat,
    k: int,
    p: int,
) -> (at: Seq<int>)
    requires
        t.valid(),
    ensures
        ({
            let results = nearest(t, hits, limit);
            &&& at.len() == results.len()
            &&& results.len() <= within_index(limit)
            &&& forall|i: int|
                0 <= i < at.len() ==> 0 <= #[trigger] at[i] < hits.len() && results[i].memory.id
                    == hits[at[i]].id && results[i].rank == hits[at[i]].score && find(
                    t.memories,
                    hits[at[i]].id,
                ) == Some(results[i].memory) && results[i].relations == related(
                    t,
                    hits[at[i]].id,
                )
            &&& forall|i: int, j: int| 0 <= i < j < at.len() ==> #[trigger] at[i] < #[trigger] at[j]
            &&& 0 <= k < hits.len() && 0 <= p < t.memories.len() && t.memories[p].id == hits[k].id
                && results.len() < within_index(limit) ==> at.contains(k)
        }),
{
    let at = lemma_matched_fields(t, hits, true, None, clamped(limit), k, p);
    let results = nearest(t, hits, limit);
    assert forall|i: int| 0 <= i < at.len() implies find(t.memories, hits[#[trigger] at[i]].id)
        == Some(results[i].memory) && results[i].relations == related(t, hits[at[i]].id) by {
        crate::reading::law_nearest(t, hits, limit, i);
    }
    at
}

/// The neighbours of a memory: first one for each edge that starts at it, then
/// one for each edge that ends at it, in the order of the edges. Each tells the
/// edge's type, its direction and the memory at the other end as it is.
pub proof fn law_neighbour_fields(t: Tables, id: Seq<char>, i: int)
    requires
        t.valid(),
    ensures
        ({
            let v = related(t, id);
            let from = t.relations.filter(|r: RelationView| r.source_id == id);
            let to = t.relations.filter(|r: RelationView| r.target_id == id);
            &&& v.len() == from.len() + to.len()
            &&& 0 <= i < from.len() ==> v[i].direction == EdgeDirection::Outgoing && v[i].target_id
                == from[i].target_id && v[i].relation_type == from[i].relation_type
            &&& 0 <= i < to.len() ==> v[from.len() + i].direction == EdgeDirection::Incoming
                && v[from.len() + i].target_id == to[i].source_id && v[from.len()
                + i].relation_type == to[i].relation_type
            &&& 0 <= i < v.len() ==> (find(t.memories, v[i].target_id) matches Some(m)
                && v[i].target_title == Some(m.title) && v[i].target_kind == Some(m.kind)
                && v[i].target_status == Some(m.status))
        }),
{
    if 0 <= i < related(t, id).len() {
        law_neighbours_are_current(t, id, i);
    }
}

/// A memory counts once, for the state that it is in.
pub proof fn law_status_count(memories: Seq<MemoryView>, m: MemoryView, status: MemoryStatus)
    ensures
        status_count(Seq::empty(), status) == 0,
        status_count(memories.push(m), status) == status_count(memories, status) + (if m.status
            == status {
            1int
        } else {
            0
        }),
{
    reveal(Seq::filter);
    assert(memories.push(m).drop_last() =~= memories);
}

/// An edge counts once, for the type that it is of.
pub proof fn law_type_count(
    relations: Seq<RelationView>,
    r: RelationView,
    relation_type: RelationType,
)
    ensures
        type_count(Seq::empty(), relation_type) == 0,
        type_count(relations.push(r), relation_type) == type_count(relations, relation_type) + (
        if r.relation_type == relation_type {
            1int
        } else {
            0
        }),
{
    reveal(Seq::filter);
    assert(relations.push(r).drop_last() =~= relations);
}

/// A count is told as it is, as far as the database can tell counts.
pub proof fn law_count_value(n: nat)
    ensures
        n <= i64::MAX ==> count_value(n) == n,
{
}

/// A type of edges is listed with its count exactly where an edge is of it.
pub proof fn law_type_is_listed(relations: Seq<RelationView>, relation_type: RelationType)
    ensures
        (exists|i: int|
            0 <= i < type_counts(relations).len() && (#[trigger] type_counts(relations)[i]).0
                == relation_type.text()) <==> (exists|k: int|
            0 <= k < relations.len() && (#[trigger] relations[k]).relation_type == relation_type),
        forall|i: int|
            0 <= i < type_counts(relations).len() && (#[trigger] type_counts(relations)[i]).0
                == relation_type.text() && type_count(relations, relation_type) <= i64::MAX
                ==> type_counts(relations)[i].1 == type_count(relations, relation_type),
{
    let all = seq![
        RelationType::Blocks,
        RelationType::DependsOn,
        RelationType::References,
        RelationType::Supersedes,
    ];
    let occurs = |r: RelationType| type_count(relations, r) > 0;
    let some = all.filter(occurs);
    let counts = type_counts(relations);
    let of_type = |r: RelationView| r.relation_type == relation_type;
    lemma_filter_elements(all, occurs);
    lemma_filter_elements(relations, of_type);
    assert forall|i: int| 0 <= i < counts.len() && (#[trigger] counts[i]).0
        == relation_type.text() implies some[i] == relation_type by {
        if some[i] != relation_type {
            lemma_type_names_differ(some[i], relation_type);
        }
    }
    if exists|i: int| 0 <= i < counts.len() && (#[trigger] counts[i]).0 == relation_type.text() {
        let i = choose|i: int|
            0 <= i < counts.len() && (#[trigger] counts[i]).0 == relation_type.text();
        assert(occurs(some[i]));
        let m = relations.filter(of_type)[0];
        assert(of_type(relations.filter(of_type)[0]));
        let k = choose|k: int| 0 <= k < relations.len() && relations[k] == m;
        assert(relations[k].relation_type == relation_type);
    }
    if exists|k: int|
        0 <= k < relations.len() && (#[trigger] relations[k]).relation_type == relation_type {
        let k = choose|k: int|
            0 <= k < relations.len() && (#[trigger] relations[k]).relation_type == relation_type;
        assert(of_type(relations[k]));
        assert(relations.filter(of_type).contains(relations[k]));
        let n: int = match relation_type {
            RelationType::Blocks => 0,
            RelationType::DependsOn => 1,
            RelationType::References => 2,
            RelationType::Supersedes => 3,
        };
        assert(all[n] == relation_type);
        assert(occurs(all[n]));
        let i = choose|i: int| 0 <= i < some.len() && some[i] == relation_type;
        assert(counts[i].0 == relation_type.text());
    }
}

} // verus!

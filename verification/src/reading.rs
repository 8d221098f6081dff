//! What holds of everything that is read from the graph.

use crate::laws::{law_link, law_record, law_resolve, lemma_link_replay};
use crate::models::{
    law_relation_round_trip, EdgeDirection, MemoryKind, MemoryStatus, MemoryView, RelatedView,
    RelationType, RelationView,
};
use crate::plans::{edge, link_plan, record_plan, resolve_plan};
use crate::queries::{
    by_recency, count_value, first, incoming, insert_by_recency, is_active, is_blocked, is_listed,
    is_open_block, is_ready, listing, neighbour, outgoing, ready_listing, related, status_count,
    type_count,
};
use crate::search::{
    clamped, is_match, is_searched, is_term_char, matched, nearest, search_results, term, terms,
    words, HitView, SearchView,
};
use crate::store::{type_counts, RecordView};
use crate::tables::{
    find, has_id, lemma_filter_elements, lemma_filter_order, lemma_filter_take, lemma_find,
    lemma_find_unique, replay, Tables,
};
use crate::text::{lemma_text_before_asymmetric, lemma_text_before_transitive, text_before};
use vstd::prelude::*;

verus! {

/// Whether the neighbours hold the memory `other` behind an edge of the type.
pub open spec fn sees(
    neighbours: Seq<RelatedView>,
    other: Seq<char>,
    relation_type: RelationType,
    direction: EdgeDirection,
) -> bool {
    exists|i: int|
        0 <= i < neighbours.len() && (#[trigger] neighbours[i]).target_id == other
            && neighbours[i].relation_type == relation_type && neighbours[i].direction == direction
}

/// Whether there is an edge of the type from `a` to `b`.
pub open spec fn has_edge(t: Tables, a: Seq<char>, b: Seq<char>, relation_type: RelationType) -> bool {
    exists|i: int|
        0 <= i < t.relations.len() && (#[trigger] t.relations[i]).source_id == a
            && t.relations[i].target_id == b && t.relations[i].relation_type == relation_type
}

/// An edge is seen from both of its ends, and nothing else is seen.
pub proof fn law_edges_seen_from_both_ends(
    t: Tables,
    a: Seq<char>,
    b: Seq<char>,
    relation_type: RelationType,
)
    ensures
        sees(related(t, a), b, relation_type, EdgeDirection::Outgoing) <==> has_edge(
            t,
            a,
            b,
            relation_type,
        ),
        sees(related(t, b), a, relation_type, EdgeDirection::Incoming) <==> has_edge(
            t,
            a,
            b,
            relation_type,
        ),
{
    let starts = |r: RelationView| r.source_id == a;
    let ends = |r: RelationView| r.target_id == b;
    lemma_filter_elements(t.relations, starts);
    lemma_filter_elements(t.relations, ends);
    let from = t.relations.filter(starts);
    let to = t.relations.filter(ends);
    let ra = related(t, a);
    let rb = related(t, b);
    if has_edge(t, a, b, relation_type) {
        let i = choose|i: int|
            0 <= i < t.relations.len() && (#[trigger] t.relations[i]).source_id == a
                && t.relations[i].target_id == b && t.relations[i].relation_type == relation_type;
        assert(starts(t.relations[i]) && ends(t.relations[i]));
        let p = choose|p: int| 0 <= p < from.len() && from[p] == t.relations[i];
        assert(ra[p].target_id == b);
        let q = choose|q: int| 0 <= q < to.len() && to[q] == t.relations[i];
        assert(rb[outgoing(t, b).len() + q].target_id == a);
    }
    if sees(ra, b, relation_type, EdgeDirection::Outgoing) {
        let p = choose|p: int|
            0 <= p < ra.len() && (#[trigger] ra[p]).target_id == b && ra[p].relation_type
                == relation_type && ra[p].direction == EdgeDirection::Outgoing;
        assert(p < from.len());
        assert(starts(from[p]));
        let i = choose|i: int| 0 <= i < t.relations.len() && t.relations[i] == from[p];
        assert(t.relations[i].source_id == a);
    }
    if sees(rb, a, relation_type, EdgeDirection::Incoming) {
        let p = choose|p: int|
            0 <= p < rb.len() && (#[trigger] rb[p]).target_id == a && rb[p].relation_type
                == relation_type && rb[p].direction == EdgeDirection::Incoming;
        let q = p - outgoing(t, b).len();
        assert(q >= 0);
        assert(ends(to[q]));
        let i = choose|i: int| 0 <= i < t.relations.len() && t.relations[i] == to[q];
        assert(t.relations[i].source_id == a);
    }
}

/// An edge that was put is seen from both of its ends.
pub proof fn law_link_is_seen(
    t: Tables,
    source: Seq<char>,
    target: Seq<char>,
    relation_type: RelationType,
    now: Seq<char>,
)
    requires
        link_plan(t, source, target, relation_type, now) is Ok,
    ensures
        ({
            let u = replay(t, link_plan(t, source, target, relation_type, now)->Ok_0);
            &&& sees(related(u, source), target, relation_type, EdgeDirection::Outgoing)
            &&& sees(related(u, target), source, relation_type, EdgeDirection::Incoming)
        }),
{
    let u = replay(t, link_plan(t, source, target, relation_type, now)->Ok_0);
    let t1 = lemma_link_replay(t, source, target, relation_type, now);
    let k = u.relations.len() - 1;
    assert(u.relations[k] == edge(source, target, relation_type, now));
    assert(u.relations[k].source_id == source);
    law_edges_seen_from_both_ends(u, source, target, relation_type);
}

/// A superseded memory and the one in its place are seen from one another.
pub proof fn law_supersession_is_seen(t: Tables, o: RecordView, id: Seq<char>, now: Seq<char>)
    requires
        t.valid(),
        record_plan(t, o, id, now) is Ok,
        o.supersedes_id is Some,
    ensures
        ({
            let u = replay(t, record_plan(t, o, id, now)->Ok_0);
            let target = o.supersedes_id->0;
            &&& sees(related(u, id), target, RelationType::Supersedes, EdgeDirection::Outgoing)
            &&& sees(related(u, target), id, RelationType::Supersedes, EdgeDirection::Incoming)
        }),
{
    let u = replay(t, record_plan(t, o, id, now)->Ok_0);
    let target = o.supersedes_id->0;
    law_record(t, o, id, now, id);
    let k = u.relations.len() - 1;
    assert(u.relations[k] == edge(id, target, RelationType::Supersedes, now));
    assert(u.relations[k].source_id == id);
    law_edges_seen_from_both_ends(u, id, target, RelationType::Supersedes);
}

/// Every neighbour is shown as it is at the time.
pub proof fn law_neighbours_are_current(t: Tables, id: Seq<char>, i: int)
    requires
        t.valid(),
        0 <= i < related(t, id).len(),
    ensures
        ({
            let v = related(t, id)[i];
            find(t.memories, v.target_id) matches Some(m) && v.target_title == Some(m.title)
                && v.target_kind == Some(m.kind) && v.target_status == Some(m.status)
        }),
{
    let starts = |r: RelationView| r.source_id == id;
    let ends = |r: RelationView| r.target_id == id;
    lemma_filter_elements(t.relations, starts);
    lemma_filter_elements(t.relations, ends);
    let from = t.relations.filter(starts);
    let to = t.relations.filter(ends);
    let n = outgoing(t, id).len();
    let r = if i < n {
        from[i]
    } else {
        to[i - n]
    };
    let k = choose|k: int| 0 <= k < t.relations.len() && t.relations[k] == r;
    assert(has_id(t.memories, t.relations[k].source_id));
    lemma_find(t.memories, r.source_id);
    lemma_find(t.memories, r.target_id);
}

/// Rows from the latest update to the earliest.
pub open spec fn latest_first(rows: Seq<MemoryView>) -> bool {
    forall|i: int, j: int|
        0 <= i < j < rows.len() ==> !text_before(
            (#[trigger] rows[i]).updated_at,
            (#[trigger] rows[j]).updated_at,
        )
}

pub proof fn lemma_insert_by_recency(rows: Seq<MemoryView>, m: MemoryView) -> (p: int)
    requires
        latest_first(rows),
    ensures
        0 <= p <= rows.len(),
        insert_by_recency(rows, m) == rows.insert(p, m),
        latest_first(rows.insert(p, m)),
    decreases rows.len(),
{
    if rows.len() > 0 && text_before(rows.last().updated_at, m.updated_at) {
        let init = rows.drop_last();
        assert(latest_first(init));
        let p = lemma_insert_by_recency(init, m);
        let before = init.insert(p, m);
        let res = rows.insert(p, m);
        assert(before.push(rows.last()) =~= res);
        assert forall|i: int, j: int| 0 <= i < j < res.len() implies !text_before(
            (#[trigger] res[i]).updated_at,
            (#[trigger] res[j]).updated_at,
        ) by {
            if j < before.len() {
                assert(res[i] == before[i] && res[j] == before[j]);
            } else {
                assert(res[j] == rows.last());
                if i == p {
                    lemma_text_before_asymmetric(rows.last().updated_at, m.updated_at);
                } else if i < p {
                    assert(res[i] == rows[i]);
                } else {
                    assert(res[i] == rows[i - 1]);
                }
            }
        }
        p
    } else {
        let res = rows.push(m);
        assert(res =~= rows.insert(rows.len() as int, m));
        assert forall|i: int, j: int| 0 <= i < j < res.len() implies !text_before(
            (#[trigger] res[i]).updated_at,
            (#[trigger] res[j]).updated_at,
        ) by {
            if j == rows.len() {
                let last = rows.last();
                if i < rows.len() - 1 {
                    assert(!text_before(rows[i].updated_at, rows[rows.len() - 1].updated_at));
                    lemma_text_before_transitive(rows[i].updated_at, last.updated_at, m.updated_at);
                }
            }
        }
        rows.len() as int
    }
}

/// Ordering by recency orders, and neither adds nor drops a row.
pub proof fn lemma_by_recency(rows: Seq<MemoryView>)
    ensures
        latest_first(by_recency(rows)),
        by_recency(rows).len() == rows.len(),
        forall|m: MemoryView| #[trigger] by_recency(rows).contains(m) <==> rows.contains(m),
    decreases rows.len(),
{
    if rows.len() > 0 {
        let init = rows.drop_last();
        lemma_by_recency(init);
        let sorted = by_recency(init);
        let last = rows.last();
        let p = lemma_insert_by_recency(sorted, last);
        let res = sorted.insert(p, last);
        assert forall|m: MemoryView| #[trigger] res.contains(m) <==> rows.contains(m) by {
            if res.contains(m) {
                let i = choose|i: int| 0 <= i < res.len() && res[i] == m;
                if i == p {
                    assert(rows[rows.len() - 1] == m);
                } else {
                    let k = if i < p {
                        i
                    } else {
                        i - 1
                    };
                    assert(sorted[k] == m);
                    assert(sorted.contains(m));
                    let j = choose|j: int| 0 <= j < init.len() && init[j] == m;
                    assert(rows[j] == m);
                }
            }
            if rows.contains(m) {
                let j = choose|j: int| 0 <= j < rows.len() && rows[j] == m;
                if j == rows.len() - 1 {
                    assert(res[p] == m);
                } else {
                    assert(init[j] == m);
                    assert(init.contains(m));
                    assert(sorted.contains(m));
                    let i = choose|i: int| 0 <= i < sorted.len() && sorted[i] == m;
                    if i < p {
                        assert(res[i] == m);
                    } else {
                        assert(res[i + 1] == m);
                    }
                }
            }
        }
    }
}

/// The latest rows among those that pass a filter.
proof fn lemma_latest(
    memories: Seq<MemoryView>,
    keep: spec_fn(MemoryView) -> bool,
    limit: nat,
    m: MemoryView,
)
    ensures
        ({
            let rows = memories.filter(keep);
            let l = first(by_recency(rows), limit);
            &&& latest_first(l)
            &&& l.len() == if rows.len() < limit {
                rows.len()
            } else {
                limit
            }
            &&& l.contains(m) ==> memories.contains(m) && keep(m)
            &&& memories.contains(m) && keep(m) ==> l.contains(m) || (l.len() == limit && forall|
                i: int,
            |
                0 <= i < l.len() ==> !text_before((#[trigger] l[i]).updated_at, m.updated_at))
        }),
{
    let rows = memories.filter(keep);
    let all = by_recency(rows);
    let l = first(all, limit);
    lemma_by_recency(rows);
    lemma_filter_elements(memories, keep);
    assert forall|i: int, j: int| 0 <= i < j < l.len() implies !text_before(
        (#[trigger] l[i]).updated_at,
        (#[trigger] l[j]).updated_at,
    ) by {
        assert(l[i] == all[i] && l[j] == all[j]);
    }
    if l.contains(m) {
        let i = choose|i: int| 0 <= i < l.len() && l[i] == m;
        assert(all[i] == m);
        assert(all.contains(m));
        let k = choose|k: int| 0 <= k < rows.len() && rows[k] == m;
        assert(keep(rows[k]));
    }
    if memories.contains(m) && keep(m) {
        let k = choose|k: int| 0 <= k < memories.len() && memories[k] == m;
        assert(keep(memories[k]));
        assert(rows.contains(m));
        assert(all.contains(m));
        let p = choose|p: int| 0 <= p < all.len() && all[p] == m;
        if p < l.len() {
            assert(l[p] == m);
        } else {
            assert forall|i: int| 0 <= i < l.len() implies !text_before(
                (#[trigger] l[i]).updated_at,
                m.updated_at,
            ) by {
                assert(l[i] == all[i]);
            }
        }
    }
}

/// A list holds memories that pass its filters, from the latest on, at most as
/// many as asked for, and none that is left out is later than one that is in.
pub proof fn law_listing(
    t: Tables,
    status: Option<MemoryStatus>,
    kind: Option<MemoryKind>,
    limit: nat,
    m: MemoryView,
)
    ensures
        ({
            let l = listing(t.memories, status, kind, limit);
            &&& latest_first(l)
            &&& l.len() <= limit
            &&& l.contains(m) ==> t.memories.contains(m) && is_listed(m, status, kind)
            &&& t.memories.contains(m) && is_listed(m, status, kind) ==> l.contains(m) || (l.len()
                == limit && forall|i: int|
                0 <= i < l.len() ==> !text_before((#[trigger] l[i]).updated_at, m.updated_at))
        }),
{
    lemma_latest(t.memories, |m: MemoryView| is_listed(m, status, kind), limit, m);
}

/// The ready list holds active tasks and blockers that no active memory blocks,
/// and, where the limit allows, all of them.
pub proof fn law_ready(t: Tables, limit: nat, m: MemoryView)
    ensures
        ({
            let l = ready_listing(t, limit);
            &&& latest_first(l)
            &&& l.len() <= limit
            &&& l.contains(m) ==> t.memories.contains(m) && is_ready(t, m)
            &&& t.memories.contains(m) && is_ready(t, m) ==> l.contains(m) || (l.len() == limit
                && forall|i: int|
                0 <= i < l.len() ==> !text_before((#[trigger] l[i]).updated_at, m.updated_at))
        }),
{
    lemma_latest(t.memories, |m: MemoryView| is_ready(t, m), limit, m);
}

/// A task that only `blocker` blocks is ready once `blocker` is resolved.
pub proof fn law_resolving_unblocks(
    t: Tables,
    blocker: Seq<char>,
    note: Option<Seq<char>>,
    now: Seq<char>,
    m: MemoryView,
)
    requires
        resolve_plan(t, blocker, note, now) is Ok,
        m.status == MemoryStatus::Active,
        m.kind == MemoryKind::Task || m.kind == MemoryKind::Blocker,
        forall|i: int|
            0 <= i < t.relations.len() && is_open_block(t, #[trigger] t.relations[i], m.id)
                ==> t.relations[i].source_id == blocker,
    ensures
        is_ready(replay(t, resolve_plan(t, blocker, note, now)->Ok_0), m),
{
    let u = replay(t, resolve_plan(t, blocker, note, now)->Ok_0);
    if is_blocked(u, m.id) {
        let i = choose|i: int|
            0 <= i < u.relations.len() && is_open_block(u, #[trigger] u.relations[i], m.id);
        law_resolve(t, blocker, note, now, u.relations[i].source_id);
        assert(is_open_block(t, t.relations[i], m.id));
    }
}

/// Resolving takes no edge away: every memory has the neighbours that it had,
/// with the resolved one shown as resolved.
pub proof fn law_resolving_keeps_neighbours(
    t: Tables,
    id: Seq<char>,
    note: Option<Seq<char>>,
    now: Seq<char>,
    x: Seq<char>,
)
    requires
        resolve_plan(t, id, note, now) is Ok,
    ensures
        related(replay(t, resolve_plan(t, id, note, now)->Ok_0), x) == related(t, x).map_values(
            |v: RelatedView| resolved_neighbour(v, id),
        ),
{
    let u = replay(t, resolve_plan(t, id, note, now)->Ok_0);
    let f = |v: RelatedView| resolved_neighbour(v, id);
    law_resolve(t, id, note, now, id);
    assert forall|other: Seq<char>, ty: RelationType, d: EdgeDirection|
        #[trigger] neighbour(u.memories, other, ty, d) == f(neighbour(t.memories, other, ty, d)) by {
        law_resolve(t, id, note, now, other);
    }
    assert(outgoing(u, x) =~= outgoing(t, x).map_values(f));
    assert(incoming(u, x) =~= incoming(t, x).map_values(f));
    assert(related(u, x) =~= related(t, x).map_values(f));
}

/// A neighbour, shown as resolved if it is the memory `id`.
pub open spec fn resolved_neighbour(v: RelatedView, id: Seq<char>) -> RelatedView {
    if v.target_id == id {
        RelatedView { target_status: Some(MemoryStatus::Resolved), ..v }
    } else {
        v
    }
}

/// A memory that an active memory is linked to block is not ready.
pub proof fn law_blocked_is_not_ready(
    t: Tables,
    blocker: Seq<char>,
    now: Seq<char>,
    m: MemoryView,
)
    requires
        link_plan(t, blocker, m.id, RelationType::Blocks, now) is Ok,
        is_active(t.memories, blocker),
    ensures
        !is_ready(replay(t, link_plan(t, blocker, m.id, RelationType::Blocks, now)->Ok_0), m),
{
    let plan = link_plan(t, blocker, m.id, RelationType::Blocks, now)->Ok_0;
    let u = replay(t, plan);
    assert(plan.drop_last() =~= Seq::empty());
    assert(replay(t, plan.drop_last()) == t);
    assert(u.memories == t.memories);
    let k = u.relations.len() - 1;
    assert(u.relations[k] == edge(blocker, m.id, RelationType::Blocks, now));
    assert(is_open_block(u, u.relations[k], m.id));
}

/// What a search gives: memories as they are, with all their neighbours, of the
/// kind that was asked for, active unless others were asked for, and no more
/// than the limit.
pub proof fn law_search(t: Tables, o: SearchView, hits: Seq<HitView>, i: int)
    requires
        t.valid(),
        0 <= i < search_results(t, o, hits).len(),
    ensures
        ({
            let results = search_results(t, o, hits);
            let m = results[i].memory;
            &&& find(t.memories, m.id) == Some(m)
            &&& is_searched(m, o.include_resolved, o.kind)
            &&& results[i].relations == related(t, m.id)
            &&& results.len() <= if terms(o.query).len() == 0 {
                o.limit
            } else {
                clamped(o.limit)
            }
        }),
{
    if terms(o.query).len() == 0 {
        let status = if o.include_resolved {
            None
        } else {
            Some(MemoryStatus::Active)
        };
        let l = listing(t.memories, status, o.kind, o.limit);
        law_listing(t, status, o.kind, o.limit, l[i]);
        assert(l.contains(l[i]));
        let k = choose|k: int| 0 <= k < t.memories.len() && t.memories[k] == l[i];
        lemma_find_unique(t.memories, k);
    } else {
        lemma_matched(t, hits, o.include_resolved, o.kind, clamped(o.limit), i);
    }
}

/// What stands behind a hit.
proof fn lemma_matched(
    t: Tables,
    hits: Seq<HitView>,
    include_resolved: bool,
    kind: Option<MemoryKind>,
    limit: nat,
    i: int,
)
    requires
        0 <= i < matched(t, hits, include_resolved, kind, limit).len(),
    ensures
        ({
            let results = matched(t, hits, include_resolved, kind, limit);
            let m = results[i].memory;
            &&& find(t.memories, m.id) == Some(m)
            &&& is_searched(m, include_resolved, kind)
            &&& results[i].relations == related(t, m.id)
            &&& results.len() <= limit
            &&& exists|k: int| 0 <= k < hits.len() && (#[trigger] hits[k]).id == m.id
        }),
{
    let keep = |h: HitView| is_match(t.memories, h, include_resolved, kind);
    let found = hits.filter(keep);
    let h = first(found, limit)[i];
    assert(h == found[i]);
    lemma_filter_elements(hits, keep);
    assert(keep(found[i]));
    lemma_find(t.memories, h.id);
    let k = choose|k: int| 0 <= k < hits.len() && hits[k] == h;
    assert(hits[k].id == h.id);
}

/// Whatever the text index finds for a query is in the result, if the memory is
/// one that the search is for and the limit is not reached.
pub proof fn law_search_misses_nothing(t: Tables, o: SearchView, hits: Seq<HitView>, k: int)
    requires
        terms(o.query).len() > 0,
        0 <= k < hits.len(),
        is_match(t.memories, hits[k], o.include_resolved, o.kind),
    ensures
        ({
            let results = search_results(t, o, hits);
            results.len() == clamped(o.limit) || exists|i: int|
                0 <= i < results.len() && (#[trigger] results[i]).memory.id == hits[k].id
                    && results[i].rank == hits[k].score
        }),
{
    let keep = |h: HitView| is_match(t.memories, h, o.include_resolved, o.kind);
    let found = hits.filter(keep);
    let results = search_results(t, o, hits);
    lemma_filter_elements(hits, keep);
    assert(keep(hits[k]));
    let p = choose|p: int| 0 <= p < found.len() && found[p] == hits[k];
    lemma_find(t.memories, hits[k].id);
    if results.len() != clamped(o.limit) {
        assert(first(found, clamped(o.limit)) == found);
        assert(results[p].memory.id == hits[k].id);
    }
}

/// What the search by similarity gives: memories as they are that the vector
/// index found, with all their neighbours, and no more than the limit.
pub proof fn law_nearest(t: Tables, hits: Seq<HitView>, limit: nat, i: int)
    requires
        0 <= i < nearest(t, hits, limit).len(),
    ensures
        ({
            let results = nearest(t, hits, limit);
            let m = results[i].memory;
            &&& find(t.memories, m.id) == Some(m)
            &&& results[i].relations == related(t, m.id)
            &&& results.len() <= clamped(limit)
            &&& exists|k: int| 0 <= k < hits.len() && (#[trigger] hits[k]).id == m.id
        }),
{
    lemma_matched(t, hits, true, None, clamped(limit), i);
}

/// A superseded memory no longer turns up in a plain search, whatever the text
/// index finds.
pub proof fn law_superseded_is_not_found(
    t: Tables,
    o: RecordView,
    id: Seq<char>,
    now: Seq<char>,
    search: SearchView,
    hits: Seq<HitView>,
    i: int,
)
    requires
        t.valid(),
        record_plan(t, o, id, now) is Ok,
        o.supersedes_id is Some,
        !search.include_resolved,
        0 <= i < search_results(replay(t, record_plan(t, o, id, now)->Ok_0), search, hits).len(),
    ensures
        search_results(
            replay(t, record_plan(t, o, id, now)->Ok_0),
            search,
            hits,
        )[i].memory.id != o.supersedes_id->0,
{
    law_record(t, o, id, now, id);
    law_search(replay(t, record_plan(t, o, id, now)->Ok_0), search, hits, i);
}

/// A memory that was linked to as superseded no longer turns up in a plain
/// search, whatever the text index finds.
pub proof fn law_linked_as_superseded_is_not_found(
    t: Tables,
    source: Seq<char>,
    target: Seq<char>,
    now: Seq<char>,
    search: SearchView,
    hits: Seq<HitView>,
    i: int,
)
    requires
        t.valid(),
        link_plan(t, source, target, RelationType::Supersedes, now) is Ok,
        !search.include_resolved,
        0 <= i < search_results(
            replay(t, link_plan(t, source, target, RelationType::Supersedes, now)->Ok_0),
            search,
            hits,
        ).len(),
    ensures
        search_results(
            replay(t, link_plan(t, source, target, RelationType::Supersedes, now)->Ok_0),
            search,
            hits,
        )[i].memory.id != target,
{
    let u = replay(t, link_plan(t, source, target, RelationType::Supersedes, now)->Ok_0);
    let new = edge(source, target, RelationType::Supersedes, now);
    law_link(t, source, target, RelationType::Supersedes, now, new, target);
    law_search(u, search, hits, i);
}

/// A resolved memory no longer turns up in a plain search, whatever the text
/// index finds.
pub proof fn law_resolved_is_not_found(
    t: Tables,
    id: Seq<char>,
    note: Option<Seq<char>>,
    now: Seq<char>,
    search: SearchView,
    hits: Seq<HitView>,
    i: int,
)
    requires
        t.valid(),
        resolve_plan(t, id, note, now) is Ok,
        !search.include_resolved,
        0 <= i < search_results(
            replay(t, resolve_plan(t, id, note, now)->Ok_0),
            search,
            hits,
        ).len(),
    ensures
        search_results(
            replay(t, resolve_plan(t, id, note, now)->Ok_0),
            search,
            hits,
        )[i].memory.id != id,
{
    law_resolve(t, id, note, now, id);
    law_search(replay(t, resolve_plan(t, id, note, now)->Ok_0), search, hits, i);
}

/// Every memory is in one of the four states: their counts add up.
pub proof fn law_states_add_up(memories: Seq<MemoryView>)
    ensures
        memories.len() == status_count(memories, MemoryStatus::Active) + status_count(
            memories,
            MemoryStatus::Superseded,
        ) + status_count(memories, MemoryStatus::Resolved) + status_count(
            memories,
            MemoryStatus::Ephemeral,
        ),
    decreases memories.len(),
{
    reveal(Seq::filter);
    if memories.len() > 0 {
        law_states_add_up(memories.drop_last());
    }
}

/// Every edge is of one of the four types: their counts add up.
pub proof fn law_types_add_up(relations: Seq<RelationView>)
    ensures
        relations.len() == type_count(relations, RelationType::Supersedes) + type_count(
            relations,
            RelationType::DependsOn,
        ) + type_count(relations, RelationType::Blocks) + type_count(
            relations,
            RelationType::References,
        ),
    decreases relations.len(),
{
    reveal(Seq::filter);
    if relations.len() > 0 {
        law_types_add_up(relations.drop_last());
    }
}

/// The sum of named counts.
pub open spec fn count_sum(counts: Seq<(Seq<char>, i64)>) -> int
    decreases counts.len(),
{
    if counts.len() == 0 {
        0
    } else {
        count_sum(counts.drop_last()) + counts.last().1
    }
}

/// The four types of edges, by name.
spec fn named_types() -> Seq<RelationType> {
    seq![
        RelationType::Blocks,
        RelationType::DependsOn,
        RelationType::References,
        RelationType::Supersedes,
    ]
}

/// The counts of the first `n` types that occur add up to those of the types.
proof fn lemma_count_sum(relations: Seq<RelationView>, n: int)
    requires
        0 <= n <= 4,
        relations.len() <= i64::MAX,
    ensures
        ({
            let occurs = |r: RelationType| type_count(relations, r) > 0;
            let count = |r: RelationType| (r.text(), count_value(type_count(relations, r)));
            count_sum(named_types().take(n).filter(occurs).map_values(count)) == type_sum(
                relations,
                n,
            )
        }),
    decreases n,
{
    let occurs = |r: RelationType| type_count(relations, r) > 0;
    let count = |r: RelationType| (r.text(), count_value(type_count(relations, r)));
    if n == 0 {
        assert(named_types().take(0).filter(occurs) =~= Seq::empty());
    } else {
        lemma_count_sum(relations, n - 1);
        lemma_filter_take(named_types(), n - 1, occurs);
        law_types_add_up(relations);
        let before = named_types().take(n - 1).filter(occurs);
        let r = named_types()[n - 1];
        if occurs(r) {
            assert(before.push(r).map_values(count).drop_last() =~= before.map_values(count));
            assert(before.push(r).map_values(count).last() == count(r));
        }
    }
}

/// The counts of the first `n` types together.
spec fn type_sum(relations: Seq<RelationView>, n: int) -> int
    decreases n,
{
    if n <= 0 {
        0
    } else {
        type_sum(relations, n - 1) + type_count(relations, named_types()[n - 1])
    }
}

/// The statistics add up: the counts by state to the count of memories, and the
/// counts by type to the count of edges. A type that is listed occurs and is
/// listed once; an empty graph has no types. The tables are of a size that a
/// count can tell.
pub proof fn law_stats_add_up(t: Tables, i: int, j: int)
    requires
        t.memories.len() <= i64::MAX,
        t.relations.len() <= i64::MAX,
    ensures
        count_value(t.memories.len()) == count_value(
            status_count(t.memories, MemoryStatus::Active),
        ) + count_value(status_count(t.memories, MemoryStatus::Superseded)) + count_value(
            status_count(t.memories, MemoryStatus::Resolved),
        ) + count_value(status_count(t.memories, MemoryStatus::Ephemeral)),
        count_value(t.relations.len()) == count_sum(type_counts(t.relations)),
        0 <= i < type_counts(t.relations).len() ==> type_counts(t.relations)[i].1 >= 1 && exists|
            r: RelationType,
        |
            type_counts(t.relations)[i].0 == #[trigger] r.text(),
        0 <= i < j < type_counts(t.relations).len() ==> type_counts(t.relations)[i].0
            != type_counts(t.relations)[j].0,
        t.memories.len() == 0 ==> count_value(t.memories.len()) == 0,
        t.relations.len() == 0 ==> count_value(t.relations.len()) == 0 && type_counts(t.relations)
            == Seq::<(Seq<char>, i64)>::empty(),
{
    let occurs = |r: RelationType| type_count(t.relations, r) > 0;
    let count = |r: RelationType| (r.text(), count_value(type_count(t.relations, r)));
    let all = named_types();
    let some = all.filter(occurs);
    law_states_add_up(t.memories);
    law_types_add_up(t.relations);
    lemma_count_sum(t.relations, 4);
    assert(all.take(4) =~= all);
    assert(type_sum(t.relations, 4) == t.relations.len()) by {
        reveal_with_fuel(type_sum, 5);
    }
    lemma_filter_elements(all, occurs);
    let at = lemma_filter_order(all, occurs);
    if 0 <= i < some.len() {
        assert(occurs(some[i]));
        assert(type_counts(t.relations)[i] == count(some[i]));
        assert(type_counts(t.relations)[i].0 == some[i].text());
    }
    if 0 <= i < j < some.len() {
        assert(at[i] < at[j]);
        assert(all[at[i]] == some[i] && all[at[j]] == some[j]);
        lemma_type_names_differ(some[i], some[j]);
    }
    if t.relations.len() == 0 && some.len() > 0 {
        assert(occurs(some[0]));
    }
    if t.relations.len() == 0 {
        assert(type_counts(t.relations) =~= Seq::empty());
    }
}

/// Different types of edges have different names.
pub proof fn lemma_type_names_differ(a: RelationType, b: RelationType)
    requires
        a != b,
    ensures
        a.text() != b.text(),
{
    law_relation_round_trip(a);
    law_relation_round_trip(b);
}

/// A search term holds letters, digits, underscores and hyphens only, and at
/// least one of them: no quotation mark of the user's reaches the text index.
pub proof fn law_terms(query: Seq<char>, i: int)
    requires
        0 <= i < terms(query).len(),
    ensures
        terms(query)[i].len() > 0,
        forall|k: int| 0 <= k < terms(query)[i].len() ==> is_term_char(#[trigger] terms(query)[i][k]),
{
    let all = words(query).map_values(|w: Seq<char>| term(w));
    let some = |t: Seq<char>| t.len() > 0;
    lemma_filter_elements(all, some);
    assert(some(all.filter(some)[i]));
    let k = choose|k: int| 0 <= k < all.len() && all[k] == terms(query)[i];
    let w = words(query)[k];
    lemma_filter_elements(w, |c: char| is_term_char(c));
}

} // verus!

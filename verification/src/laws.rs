//! What holds of the graph as a whole.

use crate::models::{LearningView, MemoryStatus, MemoryView, RelationType, RelationView};
use crate::plans::{
    archivings, consolidate_plan, deletions, edge, expired, fresh_ids, is_expired, is_scratch,
    learning_inserts, learning_row, link_plan, record_plan, recorded_row, resolve_plan,
    resolved_row,
};
use crate::store::{archivings_of, committed, deletions_of, row_ids, MemoryStore, RecordView};
use crate::tables::{
    apply, find, has_id, lemma_apply_valid, lemma_filter_elements, lemma_find, lemma_find_unique,
    lemma_replay_concat, replay, same_edge, touches, unique_ids, ChangeView, Tables,
};
use vstd::prelude::*;

verus! {

/// Finding among the rows and one more.
proof fn lemma_find_push(memories: Seq<MemoryView>, m: MemoryView, x: Seq<char>)
    ensures
        find(memories.push(m), x) == match find(memories, x) {
            Some(found) => Some(found),
            None => if m.id == x {
                Some(m)
            } else {
                None
            },
        },
{
    assert(memories.push(m).drop_last() =~= memories);
}

/// Finding among rows that were changed but for their identifiers.
proof fn lemma_find_map(
    memories: Seq<MemoryView>,
    f: spec_fn(MemoryView) -> MemoryView,
    x: Seq<char>,
)
    requires
        forall|m: MemoryView| (#[trigger] f(m)).id == m.id,
    ensures
        find(memories.map_values(f), x) == match find(memories, x) {
            Some(m) => Some(f(m)),
            None => None,
        },
    decreases memories.len(),
{
    if memories.len() > 0 {
        lemma_find_map(memories.drop_last(), f, x);
        assert(memories.map_values(f).drop_last() =~= memories.drop_last().map_values(f));
        assert(memories.map_values(f).last() == f(memories.last()));
    }
}

/// Finding among the rows that pass a filter.
proof fn lemma_find_filter(
    memories: Seq<MemoryView>,
    keep: spec_fn(MemoryView) -> bool,
    x: Seq<char>,
)
    requires
        unique_ids(memories),
    ensures
        find(memories.filter(keep), x) == match find(memories, x) {
            Some(m) => if keep(m) {
                Some(m)
            } else {
                None
            },
            None => None,
        },
    decreases memories.len(),
{
    reveal(Seq::filter);
    if memories.len() > 0 {
        let init = memories.drop_last();
        let last = memories.last();
        assert(unique_ids(init));
        lemma_find_filter(init, keep, x);
        if keep(last) {
            lemma_find_push(init.filter(keep), last, x);
        }
        if let Some(m) = find(init, x) {
            lemma_find(init, x);
            let k = choose|k: int| 0 <= k < init.len() && init[k] == m;
            assert(memories[k].id != memories[memories.len() - 1].id);
        }
    }
}

/// Filtering twice is filtering by both.
proof fn lemma_filter_filter<A>(s: Seq<A>, p: spec_fn(A) -> bool, q: spec_fn(A) -> bool)
    ensures
        s.filter(p).filter(q) == s.filter(|x: A| p(x) && q(x)),
    decreases s.len(),
{
    reveal(Seq::filter);
    if s.len() > 0 {
        lemma_filter_filter(s.drop_last(), p, q);
        if p(s.last()) {
            let inner = s.drop_last().filter(p);
            assert(inner.push(s.last()).drop_last() =~= inner);
        }
    }
}

/// Filters that agree on a sequence give the same.
pub proof fn lemma_filter_agree<A>(s: Seq<A>, p: spec_fn(A) -> bool, q: spec_fn(A) -> bool)
    requires
        forall|i: int| 0 <= i < s.len() ==> p(#[trigger] s[i]) == q(s[i]),
    ensures
        s.filter(p) == s.filter(q),
    decreases s.len(),
{
    reveal(Seq::filter);
    if s.len() > 0 {
        assert(p(s[s.len() - 1]) == q(s[s.len() - 1]));
        assert forall|i: int| 0 <= i < s.drop_last().len() implies p(#[trigger] s.drop_last()[i])
            == q(s.drop_last()[i]) by {
            assert(s.drop_last()[i] == s[i]);
        }
        lemma_filter_agree(s.drop_last(), p, q);
    }
}

/// A filter that all pass keeps all.
pub proof fn lemma_filter_all<A>(s: Seq<A>, p: spec_fn(A) -> bool)
    requires
        forall|i: int| 0 <= i < s.len() ==> p(#[trigger] s[i]),
    ensures
        s.filter(p) == s,
    decreases s.len(),
{
    reveal(Seq::filter);
    if s.len() > 0 {
        assert(p(s[s.len() - 1]));
        assert forall|i: int| 0 <= i < s.drop_last().len() implies p(#[trigger] s.drop_last()[i]) by {
            assert(s.drop_last()[i] == s[i]);
        }
        lemma_filter_all(s.drop_last(), p);
        assert(s.drop_last().push(s.last()) =~= s);
    }
}

/// A new state, for the memory `id`.
pub open spec fn restated(id: Seq<char>, status: MemoryStatus, at: Seq<char>) -> spec_fn(
    MemoryView,
) -> MemoryView {
    |m: MemoryView|
        if m.id == id {
            MemoryView { status: status, updated_at: at, ..m }
        } else {
            m
        }
}

/// What recording does: the new memory is there, in the state in which its kind
/// starts; the superseded memory is marked as such, with an edge from the new
/// one; every other memory and every other edge is as it was. The tables stay
/// valid.
pub proof fn law_record(t: Tables, o: RecordView, id: Seq<char>, now: Seq<char>, x: Seq<char>)
    requires
        t.valid(),
        record_plan(t, o, id, now) is Ok,
    ensures
        ({
            let u = replay(t, record_plan(t, o, id, now)->Ok_0);
            &&& u.valid()
            &&& find(u.memories, id) == Some(recorded_row(o, id, now))
            &&& o.supersedes_id matches Some(target) ==> {
                &&& find(t.memories, target) matches Some(m) && find(u.memories, target) == Some(
                    MemoryView { status: MemoryStatus::Superseded, updated_at: now, ..m },
                )
                &&& u.relations == t.relations.push(
                    edge(id, target, RelationType::Supersedes, now),
                )
            }
            &&& o.supersedes_id is None ==> u.relations == t.relations
            &&& u.memories.len() == t.memories.len() + 1
            &&& x != id && o.supersedes_id != Some(x) ==> find(u.memories, x) == find(
                t.memories,
                x,
            )
        }),
{
    let plan = record_plan(t, o, id, now)->Ok_0;
    let row = recorded_row(o, id, now);
    let insert = ChangeView::Insert { memory: row };
    lemma_find(t.memories, id);
    lemma_find(t.memories, x);
    match o.supersedes_id {
        Some(target) => {
            lemma_find(t.memories, target);
            let first = ChangeView::SetStatus {
                id: target,
                status: MemoryStatus::Superseded,
                at: now,
            };
            let relation = edge(id, target, RelationType::Supersedes, now);
            let last = ChangeView::PutRelation { relation: relation };
            let f = restated(target, MemoryStatus::Superseded, now);
            let t1 = apply(t, first);
            let t2 = apply(t1, insert);
            let t3 = apply(t2, last);
            assert(t1.memories =~= t.memories.map_values(f));
            lemma_find_map(t.memories, f, target);
            lemma_find_map(t.memories, f, id);
            lemma_find_map(t.memories, f, x);
            lemma_find(t1.memories, target);
            lemma_find(t1.memories, id);
            lemma_find(t2.memories, target);
            lemma_find(t2.memories, id);
            lemma_find_push(t1.memories, row, target);
            lemma_find_push(t1.memories, row, id);
            lemma_find_push(t1.memories, row, x);
            lemma_apply_valid(t, first);
            lemma_apply_valid(t1, insert);
            lemma_apply_valid(t2, last);
            let other = |r: RelationView| !same_edge(r, relation);
            assert forall|i: int| 0 <= i < t.relations.len() implies other(
                #[trigger] t.relations[i],
            ) by {
                assert(has_id(t.memories, t.relations[i].source_id));
            }
            lemma_filter_all(t.relations, other);
            assert(t3.relations == t.relations.push(relation));
            let three = seq![first, insert, last];
            assert(replay(t, three) == t3) by {
                reveal_with_fuel(replay, 4);
                assert(three.drop_last() =~= seq![first, insert]);
                assert(three.drop_last().drop_last() =~= seq![first]);
                assert(three.drop_last().drop_last().drop_last() =~= Seq::empty());
            }
            match o.embedding {
                Some(parts) => {
                    assert(plan.drop_last() =~= three);
                    assert(plan.last() is PutEmbedding);
                },
                None => {
                    assert(plan =~= three);
                },
            }
            assert(replay(t, plan) == t3);
        },
        None => {
            lemma_find_push(t.memories, row, id);
            lemma_find_push(t.memories, row, x);
            lemma_apply_valid(t, insert);
            let one = seq![insert];
            assert(replay(t, one) == apply(t, insert)) by {
                reveal_with_fuel(replay, 2);
                assert(one.drop_last() =~= Seq::empty());
            }
            match o.embedding {
                Some(parts) => {
                    assert(plan.drop_last() =~= one);
                },
                None => {
                    assert(plan =~= one);
                },
            }
        },
    }
}

/// The series of changes that linking makes: a new state first, if there is one,
/// then the edge.
pub proof fn lemma_link_replay(
    t: Tables,
    source: Seq<char>,
    target: Seq<char>,
    relation_type: RelationType,
    now: Seq<char>,
) -> (t1: Tables)
    requires
        link_plan(t, source, target, relation_type, now) is Ok,
    ensures
        ({
            let u = replay(t, link_plan(t, source, target, relation_type, now)->Ok_0);
            let f = restated(target, MemoryStatus::Superseded, now);
            &&& u == apply(
                t1,
                ChangeView::PutRelation { relation: edge(source, target, relation_type, now) },
            )
            &&& t1.relations == t.relations
            &&& t1.memories == if relation_type == RelationType::Supersedes && find(
                t.memories,
                target,
            )->0.status != MemoryStatus::Superseded {
                t.memories.map_values(f)
            } else {
                t.memories
            }
            &&& t.valid() ==> t1.valid()
        }),
{
    let plan = link_plan(t, source, target, relation_type, now)->Ok_0;
    let change = ChangeView::PutRelation { relation: edge(source, target, relation_type, now) };
    if relation_type == RelationType::Supersedes && find(t.memories, target)->0.status
        != MemoryStatus::Superseded {
        let first = ChangeView::SetStatus {
            id: target,
            status: MemoryStatus::Superseded,
            at: now,
        };
        let t1 = apply(t, first);
        let f = restated(target, MemoryStatus::Superseded, now);
        assert(t1.memories =~= t.memories.map_values(f));
        assert(replay(t, plan) == apply(t1, change)) by {
            reveal_with_fuel(replay, 3);
            assert(plan.drop_last() =~= seq![first]);
            assert(plan.drop_last().drop_last() =~= Seq::empty());
        }
        if t.valid() {
            lemma_apply_valid(t, first);
        }
        t1
    } else {
        assert(plan.drop_last() =~= Seq::empty());
        assert(replay(t, plan) == apply(t, change)) by {
            reveal_with_fuel(replay, 2);
        }
        t
    }
}

/// What linking does: the edge is there once and every other edge is as it was.
/// The target of an edge that supersedes is superseded from then on, also where
/// it is linked to itself; every other memory is as it was, and so are all where
/// the edge is of another type. The tables stay valid.
pub proof fn law_link(
    t: Tables,
    source: Seq<char>,
    target: Seq<char>,
    relation_type: RelationType,
    now: Seq<char>,
    r: RelationView,
    x: Seq<char>,
)
    requires
        t.valid(),
        link_plan(t, source, target, relation_type, now) is Ok,
    ensures
        ({
            let new = edge(source, target, relation_type, now);
            let u = replay(t, link_plan(t, source, target, relation_type, now)->Ok_0);
            &&& u.valid()
            &&& relation_type != RelationType::Supersedes ==> u.memories == t.memories
            &&& relation_type == RelationType::Supersedes ==> {
                &&& find(t.memories, target) matches Some(m) && find(u.memories, target) == Some(
                    if m.status == MemoryStatus::Superseded {
                        m
                    } else {
                        MemoryView { status: MemoryStatus::Superseded, updated_at: now, ..m }
                    },
                )
                &&& x != target ==> find(u.memories, x) == find(t.memories, x)
            }
            &&& u.relations.filter(|q: RelationView| same_edge(q, new)) == seq![new]
            &&& !same_edge(r, new) ==> (u.relations.contains(r) <==> t.relations.contains(r))
        }),
{
    let new = edge(source, target, relation_type, now);
    let change = ChangeView::PutRelation { relation: new };
    let t1 = lemma_link_replay(t, source, target, relation_type, now);
    let u = apply(t1, change);
    let f = restated(target, MemoryStatus::Superseded, now);
    lemma_find_map(t.memories, f, source);
    lemma_find_map(t.memories, f, target);
    lemma_find_map(t.memories, f, x);
    lemma_find(t.memories, source);
    lemma_find(t.memories, target);
    lemma_find(t.memories, x);
    lemma_find(t1.memories, source);
    lemma_find(t1.memories, target);
    lemma_apply_valid(t1, change);
    let other = |q: RelationView| !same_edge(q, new);
    let same = |q: RelationView| same_edge(q, new);
    let rest = t.relations.filter(other);
    assert(rest.filter(same) =~= Seq::empty()) by {
        lemma_filter_filter(t.relations, other, same);
        let never = |q: RelationView| other(q) && same(q);
        lemma_filter_elements(t.relations, never);
        if t.relations.filter(never).len() > 0 {
            assert(never(t.relations.filter(never)[0]));
        }
    }
    reveal(Seq::filter);
    assert(u.relations.drop_last() =~= rest);
    assert(u.relations.filter(same) =~= seq![new]);
    if !same_edge(r, new) {
        lemma_filter_elements(t.relations, other);
        if u.relations.contains(r) {
            let i = choose|i: int| 0 <= i < u.relations.len() && u.relations[i] == r;
            assert(i < rest.len());
            assert(rest[i] == r);
        }
        if t.relations.contains(r) {
            let i = choose|i: int| 0 <= i < t.relations.len() && t.relations[i] == r;
            assert(other(t.relations[i]));
            let k = choose|k: int| 0 <= k < rest.len() && rest[k] == r;
            assert(u.relations[k] == r);
        }
    }
}

/// What resolving does: the memory is resolved and carries the note; every
/// other memory and every edge is as it was. Valid tables stay valid.
pub proof fn law_resolve(
    t: Tables,
    id: Seq<char>,
    note: Option<Seq<char>>,
    now: Seq<char>,
    x: Seq<char>,
)
    requires
        resolve_plan(t, id, note, now) is Ok,
    ensures
        ({
            let u = replay(t, resolve_plan(t, id, note, now)->Ok_0);
            &&& t.valid() ==> u.valid()
            &&& find(t.memories, id) matches Some(m) && find(u.memories, id) == Some(
                resolved_row(m, note, now),
            )
            &&& x != id ==> find(u.memories, x) == find(t.memories, x)
            &&& u.relations == t.relations
        }),
{
    let plan = resolve_plan(t, id, note, now)->Ok_0;
    let change = plan[0];
    assert(plan.drop_last() =~= Seq::empty());
    assert(replay(t, plan) == apply(t, change)) by {
        reveal_with_fuel(replay, 2);
    }
    lemma_find(t.memories, id);
    let body = resolved_row(find(t.memories, id)->0, note, now).body;
    let f = |m: MemoryView|
        if m.id == id {
            MemoryView { status: MemoryStatus::Resolved, body: body, updated_at: now, ..m }
        } else {
            m
        };
    assert(apply(t, change).memories =~= t.memories.map_values(f));
    lemma_find_map(t.memories, f, id);
    lemma_find_map(t.memories, f, x);
    lemma_find(t.memories, x);
    if t.valid() {
        lemma_apply_valid(t, change);
    }
}

/// The graph is what its journal makes of the graph that was loaded: a store
/// that keeps this keeps it over every request.
pub proof fn law_journal(base: Tables, old: MemoryStore, new: MemoryStore, cs: Seq<ChangeView>)
    requires
        old@ == replay(base, old.pending()),
        committed(old, new, cs),
    ensures
        new@ == replay(base, new.pending()),
{
    lemma_replay_concat(base, old.pending(), cs);
}

/// A memory whose identifier is not among `ids`.
pub open spec fn is_kept(m: MemoryView, ids: Seq<Seq<char>>) -> bool {
    !ids.contains(m.id)
}

/// An edge with neither end among `ids`.
pub open spec fn is_free(r: RelationView, ids: Seq<Seq<char>>) -> bool {
    !ids.contains(r.source_id) && !ids.contains(r.target_id)
}

/// Deleting one by one leaves the memories that were not named and the edges
/// between them.
pub proof fn lemma_replay_deletions(t: Tables, ids: Seq<Seq<char>>)
    ensures
        replay(t, deletions_of(ids)) == (Tables {
            memories: t.memories.filter(|m: MemoryView| is_kept(m, ids)),
            relations: t.relations.filter(|r: RelationView| is_free(r, ids)),
        }),
    decreases ids.len(),
{
    let kept = |m: MemoryView| is_kept(m, ids);
    let free = |r: RelationView| is_free(r, ids);
    if ids.len() == 0 {
        lemma_filter_all(t.memories, kept);
        lemma_filter_all(t.relations, free);
    } else {
        let init = ids.drop_last();
        let gone = ids.last();
        lemma_replay_deletions(t, init);
        assert(deletions_of(ids).drop_last() =~= deletions_of(init));
        let kept_before = |m: MemoryView| is_kept(m, init);
        let free_before = |r: RelationView| is_free(r, init);
        let kept_now = |m: MemoryView| m.id != gone;
        let free_now = |r: RelationView| !touches(r, gone);
        lemma_filter_filter(t.memories, kept_before, kept_now);
        lemma_filter_filter(t.relations, free_before, free_now);
        assert(ids =~= init.push(gone));
        assert forall|x: Seq<char>| ids.contains(x) <==> (init.contains(x) || x == gone) by {
            if init.contains(x) {
                let k = choose|k: int| 0 <= k < init.len() && init[k] == x;
                assert(ids[k] == x);
            }
            if x == gone {
                assert(ids[ids.len() - 1] == x);
            }
            if ids.contains(x) && x != gone {
                let k = choose|k: int| 0 <= k < ids.len() && ids[k] == x;
                assert(init[k] == x);
            }
        }
        lemma_filter_agree(t.memories, |m: MemoryView| kept_before(m) && kept_now(m), kept);
        lemma_filter_agree(t.relations, |r: RelationView| free_before(r) && free_now(r), free);
    }
}

/// Deleting by identifier leaves the memories that were not named, and the edges
/// between them.
proof fn lemma_sweep(t: Tables, ids: Seq<Seq<char>>, x: Seq<char>, r: RelationView)
    requires
        t.valid(),
    ensures
        ({
            let u = replay(t, deletions_of(ids));
            &&& find(u.memories, x) == if ids.contains(x) {
                None
            } else {
                find(t.memories, x)
            }
            &&& u.relations.contains(r) <==> t.relations.contains(r) && has_id(
                u.memories,
                r.source_id,
            ) && has_id(u.memories, r.target_id)
        }),
{
    lemma_replay_deletions(t, ids);
    let u = replay(t, deletions_of(ids));
    let kept = |m: MemoryView| is_kept(m, ids);
    let free = |r: RelationView| is_free(r, ids);
    lemma_find_filter(t.memories, kept, x);
    lemma_find(t.memories, x);
    lemma_find_filter(t.memories, kept, r.source_id);
    lemma_find(t.memories, r.source_id);
    lemma_find(u.memories, r.source_id);
    lemma_find_filter(t.memories, kept, r.target_id);
    lemma_find(t.memories, r.target_id);
    lemma_find(u.memories, r.target_id);
    lemma_filter_elements(t.relations, free);
    if t.relations.contains(r) {
        let k = choose|k: int| 0 <= k < t.relations.len() && t.relations[k] == r;
        assert(has_id(t.memories, t.relations[k].source_id));
        assert(has_id(t.memories, t.relations[k].target_id));
        if free(r) {
            assert(free(t.relations[k]));
        }
    }
    if u.relations.contains(r) {
        let k = choose|k: int| 0 <= k < u.relations.len() && u.relations[k] == r;
        assert(free(u.relations[k]));
    }
}

/// The identifiers of the memories that a predicate names.
pub proof fn lemma_named(
    memories: Seq<MemoryView>,
    named: spec_fn(MemoryView) -> bool,
    x: Seq<char>,
)
    requires
        unique_ids(memories),
    ensures
        row_ids(memories.filter(named)).contains(x) <==> (find(memories, x) matches Some(m)
            && named(m)),
{
    let rows = memories.filter(named);
    let ids = row_ids(rows);
    lemma_filter_elements(memories, named);
    lemma_find(memories, x);
    if ids.contains(x) {
        let k = choose|k: int| 0 <= k < ids.len() && ids[k] == x;
        assert(named(rows[k]));
        let j = choose|j: int| 0 <= j < memories.len() && memories[j] == rows[k];
        lemma_find_unique(memories, j);
    }
    if let Some(m) = find(memories, x) {
        if named(m) {
            let i = choose|i: int| 0 <= i < memories.len() && memories[i] == m;
            assert(named(memories[i]));
            let k = choose|k: int| 0 <= k < rows.len() && rows[k] == m;
            assert(ids[k] == x);
        }
    }
}

/// What the sweep of expired notes does: no ephemeral memory from before the
/// cutoff is left, every other memory is as it was, and so is every edge
/// between memories that are left.
pub proof fn law_purge_expired(t: Tables, cutoff: Seq<char>, x: Seq<char>, r: RelationView)
    requires
        t.valid(),
    ensures
        ({
            let u = replay(t, deletions(expired(t.memories, cutoff)));
            &&& expired(u.memories, cutoff) == Seq::<MemoryView>::empty()
            &&& find(u.memories, x) == match find(t.memories, x) {
                Some(m) => if is_expired(m, cutoff) {
                    None
                } else {
                    Some(m)
                },
                None => None,
            }
            &&& u.relations.contains(r) <==> t.relations.contains(r) && has_id(
                u.memories,
                r.source_id,
            ) && has_id(u.memories, r.target_id)
        }),
{
    let named = |m: MemoryView| is_expired(m, cutoff);
    let rows = t.memories.filter(named);
    let ids = row_ids(rows);
    let u = replay(t, deletions(rows));
    assert(deletions(rows) =~= deletions_of(ids));
    lemma_sweep(t, ids, x, r);
    lemma_named(t.memories, named, x);
    assert(u.memories.filter(named) =~= Seq::empty()) by {
        let kept = |m: MemoryView| is_kept(m, ids);
        lemma_replay_deletions(t, ids);
        lemma_filter_elements(t.memories, kept);
        lemma_filter_elements(u.memories, named);
        if u.memories.filter(named).len() > 0 {
            let m = u.memories.filter(named)[0];
            assert(named(m));
            let k = choose|k: int| 0 <= k < u.memories.len() && u.memories[k] == m;
            assert(kept(u.memories[k]));
            let j = choose|j: int| 0 <= j < t.memories.len() && t.memories[j] == m;
            lemma_find_unique(t.memories, j);
            lemma_named(t.memories, named, m.id);
        }
    }
}

/// The learnings are recorded under their identifiers, and nothing else is.
proof fn lemma_learnings_recorded(
    t: Tables,
    session: Seq<char>,
    learnings: Seq<LearningView>,
    ids: Seq<Seq<char>>,
    now: Seq<char>,
    n: int,
    x: Seq<char>,
)
    requires
        t.valid(),
        ids.len() == learnings.len(),
        fresh_ids(t.memories, ids),
        0 <= n <= learnings.len(),
    ensures
        ({
            let u = replay(t, learning_inserts(learnings, ids, session, now).take(n));
            &&& u.valid()
            &&& u.relations == t.relations
            &&& find(t.memories, x) is Some ==> find(u.memories, x) == find(t.memories, x)
            &&& !ids.take(n).contains(x) ==> find(u.memories, x) == find(t.memories, x)
            &&& forall|i: int|
                0 <= i < n ==> find(u.memories, #[trigger] ids[i]) == Some(
                    learning_row(learnings[i], ids[i], session, now),
                )
        }),
    decreases n,
{
    let inserts = learning_inserts(learnings, ids, session, now);
    if n == 0 {
        assert(inserts.take(0) =~= Seq::empty());
    } else {
        lemma_learnings_recorded(t, session, learnings, ids, now, n - 1, x);
        lemma_learnings_recorded(t, session, learnings, ids, now, n - 1, ids[n - 1]);
        let before = replay(t, inserts.take(n - 1));
        let u = replay(t, inserts.take(n));
        let row = learning_row(learnings[n - 1], ids[n - 1], session, now);
        assert(inserts.take(n).drop_last() =~= inserts.take(n - 1));
        assert(u == apply(before, ChangeView::Insert { memory: row }));
        lemma_find(t.memories, ids[n - 1]);
        assert(!ids.take(n - 1).contains(ids[n - 1]));
        lemma_find(before.memories, ids[n - 1]);
        lemma_apply_valid(before, ChangeView::Insert { memory: row });
        lemma_find_push(before.memories, row, x);
        assert forall|i: int| 0 <= i < n implies find(u.memories, #[trigger] ids[i]) == Some(
            learning_row(learnings[i], ids[i], session, now),
        ) by {
            lemma_find_push(before.memories, row, ids[i]);
        }
        if !ids.take(n).contains(x) {
            assert(ids.take(n)[n - 1] == ids[n - 1]);
            if ids.take(n - 1).contains(x) {
                let front = ids.take(n - 1);
                let k = choose|k: int| 0 <= k < front.len() && front[k] == x;
                assert(ids.take(n)[k] == x);
            }
        }
    }
}

/// What consolidating with a purge does: every learning is recorded as an active
/// memory, whatever its kind; every scratch note that the session had is gone,
/// so that a scratch note which is left is a learning; every other memory that
/// was there is as it was, and so is every edge between memories that are left.
pub proof fn law_consolidate_purge(
    t: Tables,
    session: Seq<char>,
    learnings: Seq<LearningView>,
    ids: Seq<Seq<char>>,
    now: Seq<char>,
    x: Seq<char>,
    i: int,
    r: RelationView,
)
    requires
        t.valid(),
        ids.len() == learnings.len(),
        consolidate_plan(t, session, learnings, ids, true, now) is Ok,
    ensures
        ({
            let u = replay(t, consolidate_plan(t, session, learnings, ids, true, now)->Ok_0);
            &&& 0 <= i < learnings.len() ==> find(u.memories, ids[i]) == Some(
                learning_row(learnings[i], ids[i], session, now),
            )
            &&& find(t.memories, x) matches Some(m) ==> find(u.memories, x) == if is_scratch(
                m,
                session,
            ) {
                None
            } else {
                Some(m)
            }
            &&& find(u.memories, x) matches Some(m) ==> is_scratch(m, session) ==> ids.contains(x)
            &&& u.relations.contains(r) <==> t.relations.contains(r) && has_id(
                u.memories,
                r.source_id,
            ) && has_id(u.memories, r.target_id)
        }),
{
    let inserts = learning_inserts(learnings, ids, session, now);
    let named = |m: MemoryView| is_scratch(m, session);
    let rows = t.memories.filter(named);
    let notes = row_ids(rows);
    let t1 = replay(t, inserts);
    assert(inserts.take(learnings.len() as int) =~= inserts);
    assert(ids.take(learnings.len() as int) =~= ids);
    assert(deletions(rows) =~= deletions_of(notes));
    lemma_learnings_recorded(t, session, learnings, ids, now, learnings.len() as int, x);
    lemma_replay_concat(t, inserts, deletions(rows));
    lemma_sweep(t1, notes, x, r);
    lemma_named(t.memories, named, x);
    if 0 <= i < learnings.len() {
        lemma_sweep(t1, notes, ids[i], r);
        lemma_named(t.memories, named, ids[i]);
        lemma_find(t.memories, ids[i]);
        assert(!has_id(t.memories, ids[i]));
    }
}

/// Putting away one by one changes the memories that were named, once each.
pub proof fn lemma_replay_archivings(t: Tables, ids: Seq<Seq<char>>, now: Seq<char>)
    ensures
        replay(t, archivings_of(ids, now)) == (Tables {
            memories: t.memories.map_values(|m: MemoryView| archived_if(m, ids, now)),
            relations: t.relations,
        }),
    decreases ids.len(),
{
    let f = |m: MemoryView| archived_if(m, ids, now);
    if ids.len() == 0 {
        assert(t.memories.map_values(f) =~= t.memories);
    } else {
        let init = ids.drop_last();
        lemma_replay_archivings(t, init, now);
        assert(archivings_of(ids, now).drop_last() =~= archivings_of(init, now));
        assert(ids =~= init.push(ids.last()));
        assert forall|x: Seq<char>| ids.contains(x) <==> (init.contains(x) || x == ids.last()) by {
            if init.contains(x) {
                let k = choose|k: int| 0 <= k < init.len() && init[k] == x;
                assert(ids[k] == x);
            }
            if x == ids.last() {
                assert(ids[ids.len() - 1] == x);
            }
            if ids.contains(x) && x != ids.last() {
                let k = choose|k: int| 0 <= k < ids.len() && ids[k] == x;
                assert(init[k] == x);
            }
        }
        let u = replay(t, archivings_of(ids, now));
        assert(u.memories =~= t.memories.map_values(f));
    }
}

/// A memory, put away as resolved if its identifier is among `ids`.
pub open spec fn archived_if(m: MemoryView, ids: Seq<Seq<char>>, now: Seq<char>) -> MemoryView {
    if ids.contains(m.id) {
        archived(m, now)
    } else {
        m
    }
}

/// A memory put away as resolved.
pub open spec fn archived(m: MemoryView, now: Seq<char>) -> MemoryView {
    MemoryView { status: MemoryStatus::Resolved, updated_at: now, ..m }
}

/// What consolidating without a purge does: every learning is recorded as an
/// active memory, whatever its kind; every scratch note that the session had is
/// put away as resolved; every other memory and every edge is as it was.
pub proof fn law_consolidate_archive(
    t: Tables,
    session: Seq<char>,
    learnings: Seq<LearningView>,
    ids: Seq<Seq<char>>,
    now: Seq<char>,
    x: Seq<char>,
    i: int,
)
    requires
        t.valid(),
        ids.len() == learnings.len(),
        consolidate_plan(t, session, learnings, ids, false, now) is Ok,
    ensures
        ({
            let u = replay(t, consolidate_plan(t, session, learnings, ids, false, now)->Ok_0);
            &&& 0 <= i < learnings.len() ==> find(u.memories, ids[i]) == Some(
                learning_row(learnings[i], ids[i], session, now),
            )
            &&& find(t.memories, x) matches Some(m) ==> find(u.memories, x) == Some(
                if is_scratch(m, session) {
                    archived(m, now)
                } else {
                    m
                },
            )
            &&& u.relations == t.relations
        }),
{
    let inserts = learning_inserts(learnings, ids, session, now);
    let named = |m: MemoryView| is_scratch(m, session);
    let rows = t.memories.filter(named);
    let notes = row_ids(rows);
    let t1 = replay(t, inserts);
    let f = |m: MemoryView| archived_if(m, notes, now);
    assert(inserts.take(learnings.len() as int) =~= inserts);
    assert(archivings(rows, now) =~= archivings_of(notes, now));
    lemma_learnings_recorded(t, session, learnings, ids, now, learnings.len() as int, x);
    lemma_replay_concat(t, inserts, archivings(rows, now));
    lemma_replay_archivings(t1, notes, now);
    lemma_find_map(t1.memories, f, x);
    lemma_find(t.memories, x);
    lemma_named(t.memories, named, x);
    if 0 <= i < learnings.len() {
        lemma_find_map(t1.memories, f, ids[i]);
        lemma_named(t.memories, named, ids[i]);
        lemma_find(t.memories, ids[i]);
        assert(!has_id(t.memories, ids[i]));
    }
}

} // verus!

//! What the tools do to the graph and what they answer.

use crate::calls::{CallView, ToolCall};
use crate::models::{MemoryView, RelationType};
use crate::plans::{
    consolidate_plan, generated_id, learning_ids, link_plan, record_plan, recorded_row,
    resolve_plan, resolved_row,
};
use crate::queries::{listing, ready_listing, related};
use crate::render::{
    details, format_details, format_ids, format_list, format_search_results_for_llm, memory_list,
    quoted_list, search_report,
};
use crate::search::{hit_rows, index_query, nearest, search_results, terms, Hit, HitView};
use crate::store::{
    committed, consolidation_summary, lemma_refused_committed, make_id, ConsolidationResult,
    ConsolidationView, MemoryStore, RecordView,
};
use crate::tables::{find, ChangeView, Tables};
use crate::text::{decimal, push_decimal, texts};
use vstd::prelude::*;
use vstd::string::*;

verus! {

/// How many new identifiers a call needs.
pub open spec fn ids_needed(call: CallView) -> nat {
    match call {
        CallView::Record { options } => if options.id is None {
            1
        } else {
            0
        },
        CallView::Consolidate { session_id, learnings, purge_ephemeral } => learnings.len(),
        _ => 0,
    }
}

/// The identifier under which a memory is recorded.
pub open spec fn record_id(o: RecordView, shorts: Seq<Seq<char>>) -> Seq<char> {
    match o.id {
        Some(id) => id,
        None => generated_id(o.kind, shorts[0]),
    }
}

/// What a call changes in the graph; nothing where it is refused.
pub open spec fn changes_of(t: Tables, call: CallView, shorts: Seq<Seq<char>>, now: Seq<char>) -> Seq<
    ChangeView,
> {
    let plan = match call {
        CallView::Record { options } => record_plan(t, options, record_id(options, shorts), now),
        CallView::Link { source_id, target_id, relation_type } => link_plan(
            t,
            source_id,
            target_id,
            relation_type,
            now,
        ),
        CallView::Resolve { id, note } => resolve_plan(t, id, note, now),
        CallView::Consolidate { session_id, learnings, purge_ephemeral } => consolidate_plan(
            t,
            session_id,
            learnings,
            learning_ids(learnings, shorts),
            purge_ephemeral,
            now,
        ),
        _ => Ok(Seq::empty()),
    };
    match plan {
        Ok(cs) => cs,
        Err(_) => Seq::empty(),
    }
}

/// What is said of a memory that was recorded.
pub open spec fn recorded_text(m: MemoryView) -> Seq<char> {
    "Successfully recorded memory ["@ + m.id + "] (kind: "@ + m.kind.text() + ", status: "@
        + m.status.text() + ")\nTitle: "@ + m.title
}

/// What is said of two memories that were linked.
pub open spec fn linked_text(
    source_id: Seq<char>,
    target_id: Seq<char>,
    relation_type: RelationType,
) -> Seq<char> {
    "Successfully linked: ["@ + source_id + "] --("@ + relation_type.text() + ")--> ["@ + target_id
        + "]"@
}

/// What is said of a memory that was resolved.
pub open spec fn resolved_text(m: MemoryView) -> Seq<char> {
    "Resolved memory ["@ + m.id + "] "@ + m.title + " (status: "@ + m.status.text() + ")"@
}

/// What is said of a session that was consolidated.
pub open spec fn consolidated_text(c: ConsolidationView) -> Seq<char> {
    "Session '"@ + c.session_id + "' consolidated successfully:\n- Permanent learnings recorded: "@
        + decimal(c.learnings_recorded) + "\n- Ephemeral items purged: "@ + decimal(
        c.ephemeral_purged,
    ) + "\n- Ephemeral items archived: "@ + decimal(c.ephemeral_archived) + "\n- Recorded IDs: "@
        + quoted_list(c.recorded_ids)
}

/// What is said of a memory that does not exist.
pub open spec fn unknown_memory_text(id: Seq<char>) -> Seq<char> {
    "Memory with ID '"@ + id + "' not found."@
}

/// What a call answers, or why it is refused. `hits` is what the index gave
/// that the call needs, or why it gave nothing.
pub open spec fn answer_of(
    t: Tables,
    call: CallView,
    hits: Result<Seq<HitView>, Seq<char>>,
    shorts: Seq<Seq<char>>,
    now: Seq<char>,
) -> Result<Seq<char>, Seq<char>> {
    match call {
        CallView::Record { options } => {
            let id = record_id(options, shorts);
            match record_plan(t, options, id, now) {
                Ok(_) => Ok(recorded_text(recorded_row(options, id, now))),
                Err(e) => Err(e.text()),
            }
        },
        CallView::Link { source_id, target_id, relation_type } => match link_plan(
            t,
            source_id,
            target_id,
            relation_type,
            now,
        ) {
            Ok(_) => Ok(linked_text(source_id, target_id, relation_type)),
            Err(e) => Err(e.text()),
        },
        CallView::Search { options } => if terms(options.query).len() == 0 {
            Ok(search_report(search_results(t, options, Seq::empty())))
        } else {
            match hits {
                Ok(found) => Ok(search_report(search_results(t, options, found))),
                Err(e) => Err(e),
            }
        },
        CallView::SearchVector { embedding, limit } => match hits {
            Ok(found) => Ok(search_report(nearest(t, found, limit))),
            Err(e) => Err(e),
        },
        CallView::Get { id } => match find(t.memories, id) {
            Some(m) => Ok("### "@ + details(m, related(t, id))),
            None => Ok(unknown_memory_text(id)),
        },
        CallView::List { status, kind, limit } => Ok(
            memory_list(listing(t.memories, status, kind, limit), "No memories found."@),
        ),
        CallView::Ready { limit } => Ok(
            memory_list(ready_listing(t, limit), "No ready tasks or blockers found."@),
        ),
        CallView::Resolve { id, note } => match resolve_plan(t, id, note, now) {
            Ok(_) => Ok(resolved_text(resolved_row(find(t.memories, id)->0, note, now))),
            Err(e) => Err(e.text()),
        },
        CallView::Consolidate { session_id, learnings, purge_ephemeral } => {
            let ids = learning_ids(learnings, shorts);
            match consolidate_plan(t, session_id, learnings, ids, purge_ephemeral, now) {
                Ok(_) => Ok(
                    consolidated_text(
                        consolidation_summary(t, session_id, learnings, ids, purge_ephemeral, now),
                    ),
                ),
                Err(e) => Err(e.text()),
            }
        },
    }
}

/// The value of what an index gave.
pub open spec fn hits_value(hits: Result<Vec<Hit>, String>) -> Result<Seq<HitView>, Seq<char>> {
    match hits {
        Ok(found) => Ok(hit_rows(found@)),
        Err(message) => Err(message@),
    }
}

/// The value of an answer.
pub open spec fn answer_value(res: Result<String, String>) -> Result<Seq<char>, Seq<char>> {
    match res {
        Ok(text) => Ok(text@),
        Err(message) => Err(message@),
    }
}

/// How many new identifiers a call needs.
pub fn count_ids(call: &ToolCall) -> (res: usize)
    ensures
        res == ids_needed(call@),
{
    match call {
        ToolCall::Record { options } => if options.id.is_none() {
            1
        } else {
            0
        },
        ToolCall::Consolidate { session_id, learnings, purge_ephemeral } => learnings.len(),
        _ => 0,
    }
}

/// Whether a call may change the graph.
pub fn may_change(call: &ToolCall) -> (res: bool)
    ensures
        res == (call@ is Record || call@ is Link || call@ is Resolve || call@ is Consolidate),
        !res ==> forall|t: Tables, shorts: Seq<Seq<char>>, now: Seq<char>| #[trigger]
            changes_of(t, call@, shorts, now) == Seq::<ChangeView>::empty(),
{
    match call {
        ToolCall::Record { options } => true,
        ToolCall::Link { source_id, target_id, relation_type } => true,
        ToolCall::Resolve { id, note } => true,
        ToolCall::Consolidate { session_id, learnings, purge_ephemeral } => true,
        _ => false,
    }
}

/// What is said of a session that was consolidated.
fn format_consolidation(c: &ConsolidationResult) -> (res: String)
    ensures
        res@ == consolidated_text(c@),
{
    let mut res = "Session '".to_owned();
    res.append(c.session_id.as_str());
    res.append("' consolidated successfully:\n- Permanent learnings recorded: ");
    push_decimal(&mut res, c.learnings_recorded as u64);
    res.append("\n- Ephemeral items purged: ");
    push_decimal(&mut res, c.ephemeral_purged as u64);
    res.append("\n- Ephemeral items archived: ");
    push_decimal(&mut res, c.ephemeral_archived as u64);
    res.append("\n- Recorded IDs: ");
    let ids = format_ids(&c.recorded_ids);
    res.append(ids.as_str());
    res
}

/// Makes a call on the graph at the time `now`, with the given short texts for
/// the identifiers that it needs.
pub fn answer(
    store: &mut MemoryStore,
    call: ToolCall,
    hits: &Result<Vec<Hit>, String>,
    shorts: &Vec<String>,
    now: &str,
) -> (res: Result<String, String>)
    requires
        old(store).valid(),
        shorts@.len() == ids_needed(call@),
    ensures
        committed(
            *old(store),
            *final(store),
            changes_of(old(store)@, call@, texts(shorts@), now@),
        ),
        answer_value(res) == answer_of(
            old(store)@,
            call@,
            hits_value(*hits),
            texts(shorts@),
            now@,
        ),
{
    proof {
        lemma_refused_committed(*store, *store);
    }
    match call {
        ToolCall::Record { options } => {
            let id = match &options.id {
                Some(id) => id.clone(),
                None => make_id(options.kind, shorts[0].as_str()),
            };
            match store.record_memory_as(options, id, now) {
                Ok(m) => {
                    let mut text = "Successfully recorded memory [".to_owned();
                    text.append(m.id.as_str());
                    text.append("] (kind: ");
                    text.append(m.kind.as_str());
                    text.append(", status: ");
                    text.append(m.status.as_str());
                    text.append(")\nTitle: ");
                    text.append(m.title.as_str());
                    Ok(text)
                },
                Err(e) => {
                    proof {
                        lemma_refused_committed(*old(store), *store);
                    }
                    Err(e.message())
                },
            }
        },
        ToolCall::Link { source_id, target_id, relation_type } => {
            match store.link_entities(source_id.as_str(), target_id.as_str(), relation_type, now) {
                Ok(_) => {
                    let mut text = "Successfully linked: [".to_owned();
                    text.append(source_id.as_str());
                    text.append("] --(");
                    text.append(relation_type.as_str());
                    text.append(")--> [");
                    text.append(target_id.as_str());
                    text.append("]");
                    Ok(text)
                },
                Err(e) => {
                    proof {
                        lemma_refused_committed(*old(store), *store);
                    }
                    Err(e.message())
                },
            }
        },
        ToolCall::Search { options } => match index_query(&options) {
            None => {
                let none: Vec<Hit> = Vec::new();
                proof {
                    assert(hit_rows(none@) =~= Seq::empty());
                }
                let results = store.search_memory(options, &none);
                Ok(format_search_results_for_llm(&results))
            },
            Some(_) => match hits {
                Ok(found) => {
                    let results = store.search_memory(options, found);
                    Ok(format_search_results_for_llm(&results))
                },
                Err(message) => Err(message.clone()),
            },
        },
        ToolCall::SearchVector { embedding, limit } => match hits {
            Ok(found) => {
                let results = store.nearest_results(found, limit);
                Ok(format_search_results_for_llm(&results))
            },
            Err(message) => Err(message.clone()),
        },
        ToolCall::Get { id } => match store.get_memory(id.as_str()) {
            Some((m, relations)) => {
                let mut text = "### ".to_owned();
                let told = format_details(&m, &relations);
                text.append(told.as_str());
                Ok(text)
            },
            None => {
                let mut text = "Memory with ID '".to_owned();
                text.append(id.as_str());
                text.append("' not found.");
                Ok(text)
            },
        },
        ToolCall::List { status, kind, limit } => {
            let list = store.list_memories(status, kind, limit);
            Ok(format_list(&list, "No memories found."))
        },
        ToolCall::Ready { limit } => {
            let list = store.list_ready(limit);
            Ok(format_list(&list, "No ready tasks or blockers found."))
        },
        ToolCall::Resolve { id, note } => {
            let note_text = match &note {
                Some(n) => Some(n.as_str()),
                None => None,
            };
            match store.resolve_memory(id.as_str(), note_text, now) {
                Ok(m) => {
                    let mut text = "Resolved memory [".to_owned();
                    text.append(m.id.as_str());
                    text.append("] ");
                    text.append(m.title.as_str());
                    text.append(" (status: ");
                    text.append(m.status.as_str());
                    text.append(")");
                    Ok(text)
                },
                Err(e) => {
                    proof {
                        lemma_refused_committed(*old(store), *store);
                    }
                    Err(e.message())
                },
            }
        },
        ToolCall::Consolidate { session_id, learnings, purge_ephemeral } => {
            match store.consolidate_session_as(
                session_id.as_str(),
                learnings,
                shorts,
                purge_ephemeral,
                now,
            ) {
                Ok(summary) => Ok(format_consolidation(&summary)),
                Err(e) => {
                    proof {
                        lemma_refused_committed(*old(store), *store);
                    }
                    Err(e.message())
                },
            }
        },
    }
}

} // verus!

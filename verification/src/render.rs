//! Memories as text for a reader's context window.

use crate::models::{
    EdgeDirection, Memory, MemorySearchResult, MemoryView, RelatedEntity, RelatedView,
    SearchResultView,
};
use crate::queries::related_rows;
use crate::rows::memory_rows;
use crate::search::result_rows;
use crate::text::{
    concat, decimal, join, joined, lemma_concat_push, push_decimal, same_text, texts, trim,
    trimmed,
};
use vstd::prelude::*;
use vstd::string::*;

verus! {

/// One neighbour on a line of its own, with the edge read from the memory whose
/// neighbour it is.
pub open spec fn relation_line(r: RelatedView) -> Seq<char> {
    let name = match r.direction {
        EdgeDirection::Outgoing => r.relation_type.text(),
        EdgeDirection::Incoming => r.relation_type.inverse_text(),
    };
    let arrow = match r.direction {
        EdgeDirection::Outgoing => "` ➔ ["@,
        EdgeDirection::Incoming => "` ◄ ["@,
    };
    let title = match r.target_title {
        Some(title) => title,
        None => "Unknown"@,
    };
    let status = match r.target_status {
        Some(status) => status.text(),
        None => "unknown"@,
    };
    "  - `"@ + name + arrow + r.target_id + "] "@ + title + " ("@ + status + ")\n"@
}

/// The neighbours, a line each.
pub open spec fn relation_lines(related: Seq<RelatedView>) -> Seq<char> {
    concat(related.map_values(|r: RelatedView| relation_line(r)))
}

/// One neighbour on a line of its own.
fn format_relation(r: &RelatedEntity) -> (res: String)
    ensures
        res@ == relation_line(r@),
{
    let mut res = "  - `".to_owned();
    match r.direction {
        EdgeDirection::Outgoing => {
            res.append(r.relation_type.as_str());
            res.append("` ➔ [");
        },
        EdgeDirection::Incoming => {
            res.append(r.relation_type.inverse());
            res.append("` ◄ [");
        },
    }
    res.append(r.target_id.as_str());
    res.append("] ");
    match &r.target_title {
        Some(title) => res.append(title.as_str()),
        None => res.append("Unknown"),
    }
    res.append(" (");
    match r.target_status {
        Some(status) => res.append(status.as_str()),
        None => res.append("unknown"),
    }
    res.append(")\n");
    res
}

/// The neighbours, a line each.
pub fn format_relations(relations: &Vec<RelatedEntity>) -> (res: String)
    ensures
        res@ == relation_lines(related_rows(relations@)),
{
    let ghost rows = related_rows(relations@);
    let ghost f = |r: RelatedView| relation_line(r);
    let mut res = String::new();
    let mut i: usize = 0;
    proof {
        assert(rows.take(0).map_values(f) =~= Seq::empty());
    }
    while i < relations.len()
        invariant
            i <= relations@.len(),
            rows == related_rows(relations@),
            f == (|r: RelatedView| relation_line(r)),
            res@ == concat(rows.take(i as int).map_values(f)),
        decreases relations@.len() - i,
    {
        let line = format_relation(&relations[i]);
        res.append(line.as_str());
        proof {
            let r = rows[i as int];
            assert(r == relations@[i as int]@);
            lemma_concat_push(rows.take(i as int).map_values(f), f(r));
            assert(rows.take(i + 1).map_values(f) =~= rows.take(i as int).map_values(f).push(f(r)));
        }
        i += 1;
    }
    proof {
        assert(rows.take(i as int) =~= rows);
    }
    res
}

/// What identifies a memory on one line.
pub open spec fn heading(m: MemoryView) -> Seq<char> {
    "["@ + m.id + "] "@ + m.title + " (kind: "@ + m.kind.text() + ", status: "@ + m.status.text()
        + ")\n"@
}

/// The tags on a line of their own, where there are any.
pub open spec fn tags_line(m: MemoryView) -> Seq<char> {
    match m.tags {
        Some(tags) => if trimmed(tags).len() > 0 {
            "- **Tags**: "@ + tags + "\n"@
        } else {
            Seq::empty()
        },
        None => Seq::empty(),
    }
}

/// The neighbours under a heading, where there are any.
pub open spec fn relations_section(related: Seq<RelatedView>) -> Seq<char> {
    if related.len() == 0 {
        Seq::empty()
    } else {
        "- **Relations (1-Hop DAG)**:\n"@ + relation_lines(related)
    }
}

/// What is told of a memory and its neighbours.
pub open spec fn details(m: MemoryView, related: Seq<RelatedView>) -> Seq<char> {
    heading(m) + tags_line(m) + "- **Body**: "@ + trimmed(m.body) + "\n"@ + relations_section(
        related,
    )
}

/// What identifies a memory on one line.
fn format_heading(m: &Memory) -> (res: String)
    ensures
        res@ == heading(m@),
{
    let mut res = "[".to_owned();
    res.append(m.id.as_str());
    res.append("] ");
    res.append(m.title.as_str());
    res.append(" (kind: ");
    res.append(m.kind.as_str());
    res.append(", status: ");
    res.append(m.status.as_str());
    res.append(")\n");
    res
}

/// The tags on a line of their own, where there are any.
fn format_tags(m: &Memory) -> (res: String)
    ensures
        res@ == tags_line(m@),
{
    proof {
        reveal_strlit("");
    }
    match &m.tags {
        Some(tags) => {
            let t = trim(tags.as_str());
            if same_text(t, "") {
                String::new()
            } else {
                proof {
                    if t@.len() == 0 {
                        assert(t@ =~= ""@);
                    }
                }
                let mut res = "- **Tags**: ".to_owned();
                res.append(tags.as_str());
                res.append("\n");
                res
            }
        },
        None => String::new(),
    }
}

/// What is told of a memory and its neighbours.
pub fn format_details(m: &Memory, relations: &Vec<RelatedEntity>) -> (res: String)
    ensures
        res@ == details(m@, related_rows(relations@)),
{
    let mut res = format_heading(m);
    let tags = format_tags(m);
    res.append(tags.as_str());
    res.append("- **Body**: ");
    res.append(trim(m.body.as_str()));
    res.append("\n");
    if relations.len() > 0 {
        let mut section = "- **Relations (1-Hop DAG)**:\n".to_owned();
        let lines = format_relations(relations);
        section.append(lines.as_str());
        res.append(section.as_str());
    } else {
        proof {
            let d = heading(m@) + tags_line(m@) + "- **Body**: "@ + trimmed(m@.body) + "\n"@;
            assert(d + Seq::<char>::empty() =~= d);
        }
    }
    res
}

/// The result of place `i`, counted from nought.
pub open spec fn numbered_entry(i: nat, r: SearchResultView) -> Seq<char> {
    "### "@ + decimal(i + 1) + ". "@ + details(r.memory, r.relations) + "\n"@
}

/// The entries of the results, numbered from one.
pub open spec fn numbered_entries(results: Seq<SearchResultView>) -> Seq<char> {
    concat(
        Seq::new(results.len(), |i: int| numbered_entry(i as nat, results[i])),
    )
}

/// What is told of the results of a search.
pub open spec fn search_report(results: Seq<SearchResultView>) -> Seq<char> {
    if results.len() == 0 {
        "No relevant memories found matching the query."@
    } else {
        "Found "@ + decimal(results.len()) + " relevant active memory/DAG entries:\n\n"@
            + numbered_entries(results)
    }
}

/// What is told of the results of a search.
pub fn format_search_results_for_llm(results: &Vec<MemorySearchResult>) -> (res: String)
    ensures
        res@ == search_report(result_rows(results@)),
{
    if results.len() == 0 {
        return "No relevant memories found matching the query.".to_owned();
    }
    let ghost rows = result_rows(results@);
    let ghost parts = Seq::new(rows.len(), |i: int| numbered_entry(i as nat, rows[i]));
    let mut entries = String::new();
    let mut i: usize = 0;
    proof {
        assert(parts.take(0) =~= Seq::empty());
    }
    while i < results.len()
        invariant
            i <= results@.len(),
            rows == result_rows(results@),
            parts == Seq::new(rows.len(), |i: int| numbered_entry(i as nat, rows[i])),
            entries@ == concat(parts.take(i as int)),
        decreases results@.len() - i,
    {
        let r = &results[i];
        let mut entry = "### ".to_owned();
        push_decimal(&mut entry, (i as u64) + 1);
        entry.append(". ");
        let told = format_details(&r.memory, &r.relations);
        entry.append(told.as_str());
        entry.append("\n");
        entries.append(entry.as_str());
        proof {
            assert(rows[i as int] == r@);
            assert(entry@ == parts[i as int]);
            lemma_concat_push(parts.take(i as int), parts[i as int]);
            assert(parts.take(i + 1) =~= parts.take(i as int).push(parts[i as int]));
        }
        i += 1;
    }
    proof {
        assert(parts.take(i as int) =~= parts);
    }
    let mut res = "Found ".to_owned();
    push_decimal(&mut res, results.len() as u64);
    res.append(" relevant active memory/DAG entries:\n\n");
    res.append(entries.as_str());
    res
}

/// The memories, a line each, or what is said where there are none.
pub open spec fn memory_list(memories: Seq<MemoryView>, none: Seq<char>) -> Seq<char> {
    if memories.len() == 0 {
        none
    } else {
        concat(memories.map_values(|m: MemoryView| "- "@ + heading(m)))
    }
}

/// The memories, a line each, or `none` where there are none.
pub fn format_list(memories: &Vec<Memory>, none: &str) -> (res: String)
    ensures
        res@ == memory_list(memory_rows(memories@), none@),
{
    if memories.len() == 0 {
        return none.to_owned();
    }
    let ghost rows = memory_rows(memories@);
    let ghost f = |m: MemoryView| "- "@ + heading(m);
    let mut res = String::new();
    let mut i: usize = 0;
    proof {
        assert(rows.take(0).map_values(f) =~= Seq::empty());
    }
    while i < memories.len()
        invariant
            i <= memories@.len(),
            rows == memory_rows(memories@),
            f == (|m: MemoryView| "- "@ + heading(m)),
            res@ == concat(rows.take(i as int).map_values(f)),
        decreases memories@.len() - i,
    {
        let mut line = "- ".to_owned();
        let head = format_heading(&memories[i]);
        line.append(head.as_str());
        res.append(line.as_str());
        proof {
            let m = rows[i as int];
            assert(m == memories@[i as int]@);
            lemma_concat_push(rows.take(i as int).map_values(f), f(m));
            assert(rows.take(i + 1).map_values(f) =~= rows.take(i as int).map_values(f).push(f(m)));
        }
        i += 1;
    }
    proof {
        assert(rows.take(i as int) =~= rows);
    }
    res
}

/// Identifiers as a bracketed list of quoted texts.
pub open spec fn quoted_list(ids: Seq<Seq<char>>) -> Seq<char> {
    "["@ + joined(ids.map_values(|id: Seq<char>| "\""@ + id + "\""@), ", "@) + "]"@
}

/// Identifiers as a bracketed list of quoted texts.
pub fn format_ids(ids: &Vec<String>) -> (res: String)
    ensures
        res@ == quoted_list(texts(ids@)),
{
    let ghost all = texts(ids@);
    let ghost f = |id: Seq<char>| "\""@ + id + "\""@;
    let mut quoted: Vec<String> = Vec::new();
    let mut i: usize = 0;
    proof {
        assert(texts(quoted@) =~= all.take(0).map_values(f));
    }
    while i < ids.len()
        invariant
            i <= ids@.len(),
            all == texts(ids@),
            f == (|id: Seq<char>| "\""@ + id + "\""@),
            texts(quoted@) == all.take(i as int).map_values(f),
        decreases ids@.len() - i,
    {
        let mut q = "\"".to_owned();
        q.append(ids[i].as_str());
        q.append("\"");
        let ghost before = texts(quoted@);
        quoted.push(q);
        proof {
            assert(texts(quoted@) =~= before.push(f(all[i as int])));
            assert(all.take(i + 1).map_values(f) =~= all.take(i as int).map_values(f).push(
                f(all[i as int]),
            ));
        }
        i += 1;
    }
    proof {
        assert(all.take(i as int) =~= all);
    }
    let mut res = "[".to_owned();
    let inner = join(&quoted, ", ");
    res.append(inner.as_str());
    res.append("]");
    res
}

} // verus!

//! What texts hold: numbers, queries, reports and the columns that are stored.

use crate::calls::CallView;
use crate::cli::{
    consolidated_output, list_line, list_output, memory_output, output_of, recorded_output,
    stats_output,
};
use crate::config::{install_warning_text, is_passing_dir, server_entry};
use crate::db::{all_digits, digits_value, memory_of, natural_of, relation_of};
use crate::json::{empty_object, JsonView};
use crate::models::{
    DatabaseStats, EdgeDirection, MemoryKind, MemoryStatus, MemoryView, RelatedView, RelationType,
    RelationView, SearchResultView,
};
use crate::render::{
    details, heading, memory_list, numbered_entry, quoted_list, relation_line, relation_lines,
    relations_section, search_report, tags_line,
};
use crate::plans::{learning_ids, recorded_row, resolved_row};
use crate::queries::related;
use crate::search::{
    lemma_filter_concat, lemma_word_len, prefix_match, sanitized, term, terms, word_len, words,
    HitView,
};
use crate::store::{consolidation_summary, ConsolidationView};
use crate::tables::{find, lemma_find, ChangeView, Tables};
use crate::text::{
    alphanumeric, concat, decimal, joined, lemma_concat_push, signed_decimal, trimmed, trimmed_end,
    trimmed_start, white_space,
};
use crate::tools::{
    answer_of, consolidated_text, linked_text, record_id, recorded_text, resolved_text,
};
use vstd::prelude::*;

verus! {

/// Whether `part` stands somewhere in `text`.
pub open spec fn holds(text: Seq<char>, part: Seq<char>) -> bool {
    exists|i: int|
        0 <= i && i + part.len() <= text.len() && #[trigger] text.subrange(i, i + part.len())
            == part
}

/// A text holds itself.
pub broadcast proof fn lemma_holds_itself(p: Seq<char>)
    ensures
        #[trigger] holds(p, p),
{
    let i: int = 0;
    assert(p.subrange(i, i + p.len()) =~= p);
}

/// A text holds what a part of it holds.
pub broadcast proof fn lemma_holds_part(a: Seq<char>, b: Seq<char>, p: Seq<char>)
    ensures
        holds(a, p) || holds(b, p) ==> #[trigger] holds(a + b, p),
{
    if holds(a, p) {
        let i = choose|i: int|
            0 <= i && i + p.len() <= a.len() && #[trigger] a.subrange(i, i + p.len()) == p;
        assert((a + b).subrange(i, i + p.len()) =~= p);
    }
    if holds(b, p) {
        let i = choose|i: int|
            0 <= i && i + p.len() <= b.len() && #[trigger] b.subrange(i, i + p.len()) == p;
        let j = a.len() + i;
        assert((a + b).subrange(j, j + p.len()) =~= p);
    }
}

/// A row of texts holds what one of them holds.
proof fn lemma_concat_holds(parts: Seq<Seq<char>>, i: int, p: Seq<char>)
    requires
        0 <= i < parts.len(),
        holds(parts[i], p),
    ensures
        holds(concat(parts), p),
    decreases parts.len(),
{
    lemma_holds_part(concat(parts.drop_last()), parts.last(), p);
    if i < parts.len() - 1 {
        lemma_concat_holds(parts.drop_last(), i, p);
    }
}

/// A number's text is made of digits and stands for the number.
pub proof fn law_decimal(n: nat)
    ensures
        all_digits(decimal(n)),
        digits_value(decimal(n)) == n,
        n <= u64::MAX ==> natural_of(decimal(n)) == Some(n),
    decreases n,
{
    let d = decimal(n);
    if n < 10 {
        assert(d.drop_last() =~= Seq::empty());
        assert(digits_value(d.drop_last()) == 0);
        assert(d.last() == crate::text::digit(n));
    } else {
        law_decimal(n / 10);
        assert(d.drop_last() =~= decimal(n / 10));
        assert(d.last() == crate::text::digit(n % 10));
        assert forall|i: int| 0 <= i < d.len() implies '0' <= #[trigger] d[i] && d[i] <= '9' by {
            if i < d.len() - 1 {
                assert(d[i] == decimal(n / 10)[i]);
            }
        }
    }
    assert(d[0] != '+');
}

/// A number with a sign is a minus and the digits of its size.
pub proof fn law_signed_decimal(n: int)
    ensures
        n >= 0 ==> digits_value(signed_decimal(n)) == n,
        n < 0 ==> signed_decimal(n).len() > 0 && signed_decimal(n)[0] == '-' && digits_value(
            signed_decimal(n).drop_first(),
        ) == -n,
{
    if n >= 0 {
        law_decimal(n as nat);
    } else {
        law_decimal((-n) as nat);
        assert(signed_decimal(n).drop_first() =~= decimal((-n) as nat));
    }
}

/// Trimming takes white space off both ends, all of it and nothing else.
pub proof fn law_trimmed(s: Seq<char>) -> (cut: (int, int))
    ensures
        0 <= cut.0 <= cut.1 <= s.len(),
        trimmed(s) == s.subrange(cut.0, cut.1),
        forall|i: int| 0 <= i < cut.0 ==> white_space(#[trigger] s[i]),
        forall|i: int| cut.1 <= i < s.len() ==> white_space(#[trigger] s[i]),
        trimmed(s).len() > 0 ==> !white_space(trimmed(s)[0]) && !white_space(trimmed(s).last()),
{
    let a = lemma_trimmed_start(s);
    let rest = trimmed_start(s);
    let b = lemma_trimmed_end(rest);
    assert(rest.take(b) =~= s.subrange(a, a + b));
    assert forall|i: int| a + b <= i < s.len() implies white_space(#[trigger] s[i]) by {
        assert(rest[i - a] == s[i]);
    }
    (a, a + b)
}

proof fn lemma_trimmed_start(s: Seq<char>) -> (a: int)
    ensures
        0 <= a <= s.len(),
        trimmed_start(s) == s.skip(a),
        forall|i: int| 0 <= i < a ==> white_space(#[trigger] s[i]),
        a < s.len() ==> !white_space(s[a]),
    decreases s.len(),
{
    if s.len() > 0 && white_space(s[0]) {
        let rest = s.drop_first();
        let a = lemma_trimmed_start(rest);
        assert(rest.skip(a) =~= s.skip(a + 1));
        assert forall|i: int| 0 <= i < a + 1 implies white_space(#[trigger] s[i]) by {
            if i > 0 {
                assert(rest[i - 1] == s[i]);
            }
        }
        a + 1
    } else {
        assert(s.skip(0) =~= s);
        0
    }
}

proof fn lemma_trimmed_end(s: Seq<char>) -> (b: int)
    ensures
        0 <= b <= s.len(),
        trimmed_end(s) == s.take(b),
        forall|i: int| b <= i < s.len() ==> white_space(#[trigger] s[i]),
        b > 0 ==> !white_space(s[b - 1]),
    decreases s.len(),
{
    if s.len() > 0 && white_space(s.last()) {
        let rest = s.drop_last();
        let b = lemma_trimmed_end(rest);
        assert(rest.take(b) =~= s.take(b));
        assert forall|i: int| b <= i < s.len() implies white_space(#[trigger] s[i]) by {
            if i < s.len() - 1 {
                assert(rest[i] == s[i]);
            }
        }
        b
    } else {
        assert(s.take(s.len() as int) =~= s);
        s.len() as int
    }
}

/// The texts of two rows in a row.
proof fn lemma_concat_add(a: Seq<Seq<char>>, b: Seq<Seq<char>>)
    ensures
        concat(a + b) == concat(a) + concat(b),
    decreases b.len(),
{
    if b.len() == 0 {
        assert(a + b =~= a);
        assert(concat(a) + concat(b) =~= concat(a));
    } else {
        lemma_concat_add(a, b.drop_last());
        assert((a + b).drop_last() =~= a + b.drop_last());
        assert(concat(a) + concat(b.drop_last()) + b.last() =~= concat(a) + (concat(b.drop_last())
            + b.last()));
    }
}

/// The characters of a query that a term may hold.
pub open spec fn is_searchable(c: char) -> bool {
    alphanumeric(c) || c == '_' || c == '-'
}

/// The terms of a query, put in a row, are all its letters, digits, underscores
/// and hyphens in their order: none is lost and none is added.
pub proof fn law_terms_keep_characters(query: Seq<char>)
    ensures
        concat(terms(query)) == query.filter(|c: char| is_searchable(c)),
    decreases query.len(),
{
    let s = query;
    let keep = |c: char| is_searchable(c);
    let kept = |c: char| crate::search::is_term_char(c);
    let some = |t: Seq<char>| t.len() > 0;
    let as_term = |w: Seq<char>| term(w);
    reveal(Seq::filter);
    if s.len() == 0 {
        assert(words(s).map_values(as_term) =~= Seq::empty());
        assert(terms(s) =~= Seq::empty());
    } else if white_space(s[0]) {
        let rest = s.drop_first();
        law_terms_keep_characters(rest);
        assert(s =~= seq![s[0]] + rest);
        lemma_filter_concat(seq![s[0]], rest, keep);
        assert(seq![s[0]].drop_last() =~= Seq::empty());
        assert(!keep(s[0]));
        assert(Seq::<char>::empty().filter(keep) =~= Seq::empty());
        assert(seq![s[0]].filter(keep) =~= Seq::empty());
        assert(Seq::<char>::empty() + rest.filter(keep) =~= rest.filter(keep));
    } else {
        lemma_word_len(s);
        let n = word_len(s) as int;
        let word = s.take(n);
        let rest = s.skip(n);
        law_terms_keep_characters(rest);
        let one = seq![term(word)];
        let others = words(rest).map_values(as_term);
        assert(words(s).map_values(as_term) =~= one + others);
        lemma_filter_concat(one, others, some);
        lemma_concat_add(one.filter(some), terms(rest));
        assert(s =~= word + rest);
        lemma_filter_concat(word, rest, keep);
        crate::laws::lemma_filter_agree(word, keep, kept);
        assert(one.drop_last() =~= Seq::empty());
        let none = Seq::<Seq<char>>::empty();
        assert(none.filter(some) =~= none);
        assert(concat(one.filter(some)) =~= term(word)) by {
            if some(term(word)) {
                assert(one.filter(some) =~= none.push(term(word)));
                lemma_concat_push(none, term(word));
            } else {
                assert(one.filter(some) =~= none);
            }
        }
    }
}

/// The words of a text with white space in it are those before and those after.
proof fn lemma_words_split(a: Seq<char>, w: char, b: Seq<char>)
    requires
        white_space(w),
    ensures
        words(a + seq![w] + b) == words(a) + words(b),
    decreases a.len(),
{
    let s = a + seq![w] + b;
    if a.len() == 0 {
        assert(s.drop_first() =~= b);
        assert(words(a) + words(b) =~= words(b));
    } else if white_space(a[0]) {
        assert(s[0] == a[0]);
        assert(s.drop_first() =~= a.drop_first() + seq![w] + b);
        lemma_words_split(a.drop_first(), w, b);
    } else {
        lemma_word_len(a);
        lemma_word_len(s);
        let n = word_len(a) as int;
        let m = word_len(s) as int;
        assert(m == n) by {
            if m < n {
                assert(s[m] == a[m]);
            }
            if m > n {
                if n < a.len() {
                    assert(s[n] == a[n]);
                } else {
                    assert(s[n] == w);
                }
            }
        }
        assert(s[0] == a[0]);
        assert(s.take(n) =~= a.take(n));
        assert(s.skip(n) =~= a.skip(n) + seq![w] + b);
        lemma_words_split(a.skip(n), w, b);
        assert(seq![a.take(n)] + (words(a.skip(n)) + words(b)) =~= seq![a.take(n)] + words(
            a.skip(n),
        ) + words(b));
    }
}

/// White space parts terms: those of a query are those before it and those after
/// it. Without white space there is one term at most.
pub proof fn law_terms_split(a: Seq<char>, w: char, b: Seq<char>)
    requires
        white_space(w),
    ensures
        terms(a + seq![w] + b) == terms(a) + terms(b),
        (forall|i: int| 0 <= i < a.len() ==> !white_space(#[trigger] a[i])) ==> terms(a).len() <= 1,
{
    let as_term = |w: Seq<char>| term(w);
    let some = |t: Seq<char>| t.len() > 0;
    lemma_words_split(a, w, b);
    assert((words(a) + words(b)).map_values(as_term) =~= words(a).map_values(as_term) + words(
        b,
    ).map_values(as_term));
    lemma_filter_concat(words(a).map_values(as_term), words(b).map_values(as_term), some);
    if forall|i: int| 0 <= i < a.len() ==> !white_space(#[trigger] a[i]) {
        lemma_word_len(a);
        if a.len() > 0 {
            let n = word_len(a) as int;
            assert(n == a.len());
            assert(a.skip(n) =~= Seq::empty());
            assert(words(a.skip(n)) =~= Seq::empty());
            assert(words(a).len() == 1);
        }
        let at = crate::tables::lemma_filter_order(words(a).map_values(as_term), some);
        if terms(a).len() > 1 {
            assert(at[0] < at[1]);
        }
    }
}

/// Two rows of texts joined are the one, the separator and the other.
proof fn lemma_joined_add(a: Seq<Seq<char>>, b: Seq<Seq<char>>, sep: Seq<char>)
    requires
        a.len() > 0,
        b.len() > 0,
    ensures
        joined(a + b, sep) == joined(a, sep) + sep + joined(b, sep),
    decreases b.len(),
{
    assert((a + b).drop_last() =~= a + b.drop_last());
    assert((a + b).last() == b.last());
    if b.len() == 1 {
        assert(a + b.drop_last() =~= a);
        assert(joined(b, sep) == b[0]);
    } else {
        lemma_joined_add(a, b.drop_last(), sep);
        assert(joined(a, sep) + sep + joined(b.drop_last(), sep) + sep + b.last() =~= joined(a, sep)
            + sep + (joined(b.drop_last(), sep) + sep + b.last()));
    }
}

/// The query for the text index: a term is quoted and followed by an asterisk,
/// and what white space parts is parted by one blank.
pub proof fn law_sanitized(a: Seq<char>, w: char, b: Seq<char>)
    requires
        white_space(w),
    ensures
        terms(a).len() == 1 ==> sanitized(a) == seq!['"'] + terms(a)[0] + seq!['"', '*'],
        terms(a).len() > 0 && terms(b).len() > 0 ==> sanitized(a + seq![w] + b) == sanitized(a)
            + seq![' '] + sanitized(b),
        terms(a).len() == 0 ==> sanitized(a + seq![w] + b) == sanitized(b),
        terms(b).len() == 0 ==> sanitized(a + seq![w] + b) == sanitized(a),
{
    let quote = |t: Seq<char>| prefix_match(t);
    law_terms_split(a, w, b);
    let x = terms(a).map_values(quote);
    let y = terms(b).map_values(quote);
    assert((terms(a) + terms(b)).map_values(quote) =~= x + y);
    if terms(a).len() > 0 && terms(b).len() > 0 {
        lemma_joined_add(x, y, seq![' ']);
    }
    if terms(a).len() == 0 {
        assert(terms(a) + terms(b) =~= terms(b));
    }
    if terms(b).len() == 0 {
        assert(terms(a) + terms(b) =~= terms(a));
    }
}

/// A line for a neighbour names the edge from where it is seen, the memory at the
/// other end, its title and its state.
pub proof fn law_relation_line(v: RelatedView)
    ensures
        v.direction == EdgeDirection::Outgoing ==> holds(relation_line(v), v.relation_type.text()),
        v.direction == EdgeDirection::Incoming ==> holds(
            relation_line(v),
            v.relation_type.inverse_text(),
        ),
        holds(relation_line(v), v.target_id),
        v.target_title matches Some(title) ==> holds(relation_line(v), title),
        v.target_status matches Some(status) ==> holds(relation_line(v), status.text()),
{
    broadcast use {lemma_holds_itself, lemma_holds_part};

}

/// A memory's details name it, tell its kind, state and body, its tags if it has
/// any, and every neighbour.
pub proof fn law_details(m: MemoryView, related: Seq<RelatedView>, i: int)
    ensures
        holds(details(m, related), m.id),
        holds(details(m, related), m.title),
        holds(details(m, related), m.kind.text()),
        holds(details(m, related), m.status.text()),
        holds(details(m, related), trimmed(m.body)),
        m.tags matches Some(tags) ==> trimmed(tags).len() > 0 ==> holds(details(m, related), tags),
        0 <= i < related.len() ==> holds(details(m, related), relation_line(related[i])),
{
    broadcast use {lemma_holds_itself, lemma_holds_part};

    if 0 <= i < related.len() {
        lemma_relation_lines(related, i);
        assert(holds(relations_section(related), relation_line(related[i])));
    }
    assert(holds(heading(m), m.id));
    assert(holds(heading(m), m.title));
    assert(holds(heading(m), m.kind.text()));
    assert(holds(heading(m), m.status.text()));
    if let Some(tags) = m.tags {
        if trimmed(tags).len() > 0 {
            assert(holds(tags_line(m), tags));
        }
    }
}

proof fn lemma_relation_lines(related: Seq<RelatedView>, i: int)
    requires
        0 <= i < related.len(),
    ensures
        holds(relation_lines(related), relation_line(related[i])),
{
    let lines = related.map_values(|r: RelatedView| relation_line(r));
    lemma_holds_itself(relation_line(related[i]));
    lemma_concat_holds(lines, i, relation_line(related[i]));
}

/// A report tells how many results there are and the details of each, under its
/// number.
pub proof fn law_search_report(results: Seq<SearchResultView>, i: int)
    requires
        0 <= i < results.len(),
    ensures
        holds(search_report(results), decimal(results.len())),
        holds(
            search_report(results),
            "### "@ + decimal((i + 1) as nat) + ". "@ + details(
                results[i].memory,
                results[i].relations,
            ),
        ),
{
    broadcast use {lemma_holds_itself, lemma_holds_part};

    let parts = Seq::new(results.len(), |k: int| numbered_entry(k as nat, results[k]));
    let p = "### "@ + decimal((i + 1) as nat) + ". "@ + details(
        results[i].memory,
        results[i].relations,
    );
    assert(holds(parts[i], p));
    lemma_concat_holds(parts, i, p);
}

/// A report of one result more says the same of the others, but for their number.
pub proof fn law_search_report_grows(results: Seq<SearchResultView>, r: SearchResultView)
    ensures
        crate::render::numbered_entries(results.push(r)) == crate::render::numbered_entries(results)
            + ("### "@ + decimal(results.len() + 1) + ". "@ + details(r.memory, r.relations)
            + "\n"@),
        search_report(Seq::empty()) == "No relevant memories found matching the query."@,
{
    let more = results.push(r);
    let parts = Seq::new(more.len(), |k: int| numbered_entry(k as nat, more[k]));
    let before = Seq::new(results.len(), |k: int| numbered_entry(k as nat, results[k]));
    assert(parts.drop_last() =~= before);
}

/// A list has a line for each memory, in its order, that names it and tells its
/// kind and its state.
pub proof fn law_lists_grow(
    memories: Seq<MemoryView>,
    m: MemoryView,
    none: Seq<char>,
) -> (lines: (Seq<char>, Seq<char>))
    ensures
        memory_list(Seq::empty(), none) == none,
        list_output(Seq::empty(), none) == none,
        memories.len() > 0 ==> memory_list(memories.push(m), none) == memory_list(memories, none)
            + lines.0,
        memories.len() == 0 ==> memory_list(memories.push(m), none) == lines.0,
        memories.len() > 0 ==> list_output(memories.push(m), none) == list_output(memories, none)
            + lines.1,
        memories.len() == 0 ==> list_output(memories.push(m), none) == lines.1,
        holds(lines.0, m.id) && holds(lines.0, m.title) && holds(lines.0, m.kind.text()) && holds(
            lines.0,
            m.status.text(),
        ),
        holds(lines.1, m.id) && holds(lines.1, m.title) && holds(lines.1, m.kind.text()) && holds(
            lines.1,
            m.status.text(),
        ),
{
    broadcast use {lemma_holds_itself, lemma_holds_part};

    let f = |m: MemoryView| "- "@ + heading(m);
    let g = |m: MemoryView| list_line(m);
    let more = memories.push(m);
    assert(more.map_values(f).drop_last() =~= memories.map_values(f));
    assert(more.map_values(g).drop_last() =~= memories.map_values(g));
    let a = f(m);
    let b = g(m);
    if memories.len() == 0 {
        assert(concat(memories.map_values(f)) + a =~= a);
        assert(concat(memories.map_values(g)) + b =~= b);
    }
    assert(holds(heading(m), m.id) && holds(heading(m), m.title) && holds(
        heading(m),
        m.kind.text(),
    ) && holds(heading(m), m.status.text()));
    assert(holds("("@ + m.kind.text() + ")"@, m.kind.text()));
    assert(holds(crate::cli::padded("("@ + m.kind.text() + ")"@, 9), m.kind.text()));
    (a, b)
}

/// What is said of a request that was carried out names what it was about.
pub proof fn law_replies_tell(
    m: MemoryView,
    source: Seq<char>,
    target: Seq<char>,
    ty: RelationType,
)
    ensures
        holds(recorded_text(m), m.id) && holds(recorded_text(m), m.title) && holds(
            recorded_text(m),
            m.kind.text(),
        ) && holds(recorded_text(m), m.status.text()),
        holds(recorded_output(m), m.id) && holds(recorded_output(m), m.title) && holds(
            recorded_output(m),
            m.kind.text(),
        ) && holds(recorded_output(m), m.status.text()),
        m.tags matches Some(tags) ==> holds(recorded_output(m), tags),
        holds(resolved_text(m), m.id) && holds(resolved_text(m), m.title) && holds(
            resolved_text(m),
            m.status.text(),
        ),
        holds(
            linked_text(source, target, ty),
            "["@ + source + "] --("@ + ty.text() + ")--> ["@ + target + "]"@,
        ),
{
    broadcast use {lemma_holds_itself, lemma_holds_part};

    if let Some(tags) = m.tags {
        assert(holds(crate::cli::labelled("  Tags:   "@, m.tags), tags));
    }
    let p = "["@ + source + "] --("@ + ty.text() + ")--> ["@ + target + "]"@;
    let q = linked_text(source, target, ty);
    let front = "Successfully linked: "@;
    assert(q =~= front + p) by {
        reveal_strlit("Successfully linked: [");
        reveal_strlit("Successfully linked: ");
        reveal_strlit("[");
    }
}

/// What a call answers and prints names what it did: the memory that was recorded
/// under its identifier, the ends of the edge, the memory that was resolved.
pub proof fn law_answers_tell(
    t: Tables,
    call: CallView,
    hits: Result<Seq<HitView>, Seq<char>>,
    shorts: Seq<Seq<char>>,
    now: Seq<char>,
)
    ensures
        answer_of(t, call, hits, shorts, now) matches Ok(told) ==> (output_of(
            t,
            call,
            hits,
            shorts,
            now,
        ) matches Ok(printed) && {
            &&& call matches CallView::Record { options } ==> {
                &&& holds(told, options.title) && holds(printed, options.title)
                &&& holds(told, options.kind.text()) && holds(printed, options.kind.text())
                &&& options.id matches Some(id) ==> holds(told, id) && holds(printed, id)
                &&& options.id is None ==> holds(told, shorts[0]) && holds(printed, shorts[0])
            }
            &&& call matches CallView::Link { source_id, target_id, relation_type } ==> {
                let edge = "["@ + source_id + "] --("@ + relation_type.text() + ")--> ["@ + target_id
                    + "]"@;
                holds(told, edge) && holds(printed, edge)
            }
            &&& call matches CallView::Resolve { id, note } ==> holds(told, id) && holds(printed, id)
                && holds(told, "resolved"@) && holds(printed, "resolved"@)
            &&& call matches CallView::Get { id } ==> holds(told, id) && holds(printed, id)
            &&& call matches CallView::Consolidate { session_id, learnings, purge_ephemeral }
                ==> holds(told, session_id) && holds(printed, session_id) && holds(
                told,
                decimal(learnings.len()),
            ) && holds(printed, decimal(learnings.len()))
        }),
{
    broadcast use {lemma_holds_itself, lemma_holds_part};

    match call {
        CallView::Record { options } => {
            let id = record_id(options, shorts);
            let m = recorded_row(options, id, now);
            law_replies_tell(m, id, id, RelationType::Blocks);
            if options.id is None {
                assert(holds(id, shorts[0]));
                lemma_holds_through(recorded_text(m), id, shorts[0]);
                lemma_holds_through(recorded_output(m), id, shorts[0]);
            }
        },
        CallView::Link { source_id, target_id, relation_type } => {
            let edge = "["@ + source_id + "] --("@ + relation_type.text() + ")--> ["@ + target_id
                + "]"@;
            let m = MemoryView {
                id: source_id,
                kind: MemoryKind::Task,
                title: source_id,
                body: source_id,
                tags: None,
                status: MemoryStatus::Active,
                session_id: None,
                created_at: now,
                updated_at: now,
            };
            law_replies_tell(m, source_id, target_id, relation_type);
            let printed = "Linked: ["@ + source_id + "] --("@ + relation_type.text() + ")--> ["@
                + target_id + "]\n"@;
            assert(printed =~= "Linked: "@ + edge + "\n"@) by {
                reveal_strlit("Linked: [");
                reveal_strlit("Linked: ");
                reveal_strlit("[");
                reveal_strlit("]\n");
                reveal_strlit("]");
                reveal_strlit("\n");
            }
        },
        CallView::Resolve { id, note } => {
            lemma_find(t.memories, id);
            if let Some(m) = find(t.memories, id) {
                law_replies_tell(resolved_row(m, note, now), id, id, RelationType::Blocks);
            }
        },
        CallView::Get { id } => {
            lemma_find(t.memories, id);
            if let Some(m) = find(t.memories, id) {
                law_details(m, related(t, id), 0);
                law_memory_output(m, related(t, id), 0);
            }
        },
        CallView::Consolidate { session_id, learnings, purge_ephemeral } => {
            let ids = learning_ids(learnings, shorts);
            let c = consolidation_summary(t, session_id, learnings, ids, purge_ephemeral, now);
            law_consolidation_told(c, 0);
            let n = decimal(c.learnings_recorded);
            lemma_holds_through(
                consolidated_text(c),
                "Permanent learnings recorded: "@ + n,
                n,
            );
        },
        _ => {},
    }
}

/// A text holds what a part of it holds.
proof fn lemma_holds_through(text: Seq<char>, part: Seq<char>, p: Seq<char>)
    requires
        holds(text, part),
        holds(part, p),
    ensures
        holds(text, p),
{
    let i = choose|i: int|
        0 <= i && i + part.len() <= text.len() && #[trigger] text.subrange(i, i + part.len())
            == part;
    let j = choose|j: int|
        0 <= j && j + p.len() <= part.len() && #[trigger] part.subrange(j, j + p.len()) == p;
    let k = i + j;
    assert(text.subrange(k, k + p.len()) =~= part.subrange(j, j + p.len()));
}

/// What is printed of a memory tells all of it, and every neighbour.
pub proof fn law_memory_output(m: MemoryView, related: Seq<RelatedView>, i: int)
    ensures
        ({
            let out = memory_output(m, related);
            &&& holds(out, m.id) && holds(out, m.title) && holds(out, m.body)
            &&& holds(out, m.kind.text()) && holds(out, m.status.text())
            &&& holds(out, m.created_at) && holds(out, m.updated_at)
            &&& m.tags matches Some(tags) ==> holds(out, tags)
            &&& m.session_id matches Some(session) ==> holds(out, session)
            &&& 0 <= i < related.len() ==> holds(out, relation_line(related[i]))
        }),
{
    broadcast use {lemma_holds_itself, lemma_holds_part};

    if let Some(tags) = m.tags {
        assert(holds(crate::cli::labelled("Tags:        "@, m.tags), tags));
    }
    if let Some(session) = m.session_id {
        assert(holds(crate::cli::labelled("Session:     "@, m.session_id), session));
    }
    if 0 <= i < related.len() {
        lemma_relation_lines(related, i);
        assert(holds("\nRelations:\n"@ + relation_lines(related), relation_line(related[i])));
    }
}

/// What is told of a consolidation gives the session, each count under its name,
/// and every identifier.
pub proof fn law_consolidation_told(c: ConsolidationView, i: int)
    ensures
        holds(consolidated_text(c), c.session_id),
        holds(consolidated_output(c), c.session_id),
        holds(
            consolidated_text(c),
            "Permanent learnings recorded: "@ + decimal(c.learnings_recorded),
        ),
        holds(
            consolidated_text(c),
            "\n- Ephemeral items purged: "@ + decimal(c.ephemeral_purged),
        ),
        holds(
            consolidated_text(c),
            "\n- Ephemeral items archived: "@ + decimal(c.ephemeral_archived),
        ),
        holds(
            consolidated_output(c),
            "\n  Ephemeral purged:    "@ + decimal(c.ephemeral_purged),
        ),
        holds(
            consolidated_output(c),
            "\n  Ephemeral archived:  "@ + decimal(c.ephemeral_archived),
        ),
        0 <= i < c.recorded_ids.len() ==> holds(consolidated_text(c), c.recorded_ids[i]) && holds(
            consolidated_output(c),
            c.recorded_ids[i],
        ),
{
    broadcast use {lemma_holds_itself, lemma_holds_part};

    let a = "Session '"@ + c.session_id;
    let b = "' consolidated successfully:\n- "@;
    let l = "Permanent learnings recorded: "@;
    let whole = "' consolidated successfully:\n- Permanent learnings recorded: "@;
    assert(whole =~= b + l) by {
        reveal_strlit("' consolidated successfully:\n- ");
        reveal_strlit("Permanent learnings recorded: ");
        reveal_strlit("' consolidated successfully:\n- Permanent learnings recorded: ");
    }
    let n1 = decimal(c.learnings_recorded);
    let t1 = a + whole + n1;
    assert(t1 =~= (a + b) + (l + n1));
    let p = "\n- Ephemeral items purged: "@;
    let n2 = decimal(c.ephemeral_purged);
    assert(t1 + p + n2 =~= t1 + (p + n2));
    let q = "\n- Ephemeral items archived: "@;
    let n3 = decimal(c.ephemeral_archived);
    let t2 = t1 + p + n2;
    assert(t2 + q + n3 =~= t2 + (q + n3));
    let o1 = "Consolidated session '"@ + c.session_id + "':\n  Learnings recorded:  "@ + n1;
    let p2 = "\n  Ephemeral purged:    "@;
    let q2 = "\n  Ephemeral archived:  "@;
    assert(o1 + p2 + n2 =~= o1 + (p2 + n2));
    let o2 = o1 + p2 + n2;
    assert(o2 + q2 + n3 =~= o2 + (q2 + n3));
    if 0 <= i < c.recorded_ids.len() {
        lemma_quoted_list(c.recorded_ids, i);
    }
}

proof fn lemma_quoted_list(ids: Seq<Seq<char>>, i: int)
    requires
        0 <= i < ids.len(),
    ensures
        holds(quoted_list(ids), ids[i]),
{
    broadcast use {lemma_holds_itself, lemma_holds_part};

    let quoted = ids.map_values(|id: Seq<char>| "\""@ + id + "\""@);
    assert(holds(quoted[i], ids[i]));
    lemma_joined_holds(quoted, ", "@, i, ids[i]);
}

proof fn lemma_joined_holds(parts: Seq<Seq<char>>, sep: Seq<char>, i: int, p: Seq<char>)
    requires
        0 <= i < parts.len(),
        holds(parts[i], p),
    ensures
        holds(joined(parts, sep), p),
    decreases parts.len(),
{
    broadcast use lemma_holds_part;

    if parts.len() > 1 && i < parts.len() - 1 {
        lemma_joined_holds(parts.drop_last(), sep, i, p);
        assert(holds(joined(parts.drop_last(), sep) + sep, p));
    }
}

/// The statistics are printed each under its name, and every type of edges with
/// its count.
pub proof fn law_stats_output(stats: DatabaseStats, db: Seq<char>, i: int)
    ensures
        ({
            let out = stats_output(stats, db);
            &&& holds(out, db)
            &&& holds(out, "  Total Memories:       "@ + signed_decimal(stats.total_memories as int))
            &&& holds(
                out,
                "  Active Memories:      "@ + signed_decimal(stats.active_memories as int),
            )
            &&& holds(
                out,
                "  Superseded Memories:  "@ + signed_decimal(stats.superseded_memories as int),
            )
            &&& holds(
                out,
                "  Resolved Memories:    "@ + signed_decimal(stats.resolved_memories as int),
            )
            &&& holds(
                out,
                "  Ephemeral Memories:   "@ + signed_decimal(stats.ephemeral_memories as int),
            )
            &&& holds(
                out,
                "  Total Relations:      "@ + signed_decimal(stats.total_relations as int),
            )
            &&& 0 <= i < stats.relations_by_type@.len() ==> holds(
                out,
                stats.relations_by_type@[i].0@,
            ) && holds(out, signed_decimal(stats.relations_by_type@[i].1 as int))
        }),
{
    broadcast use {lemma_holds_itself, lemma_holds_part};

    let types = crate::store::named_counts(stats.relations_by_type@);
    let lines = types.map_values(|c: (Seq<char>, i64)| crate::cli::type_line(c));
    if 0 <= i < stats.relations_by_type@.len() {
        let name = stats.relations_by_type@[i].0@;
        let n = signed_decimal(stats.relations_by_type@[i].1 as int);
        assert(types[i] == (name, stats.relations_by_type@[i].1));
        assert(holds(crate::cli::padded(name, 15), name));
        assert(holds(lines[i], name));
        assert(holds(lines[i], n));
        lemma_concat_holds(lines, i, name);
        lemma_concat_holds(lines, i, n);
        assert(holds("  Relations Breakdown:\n"@ + concat(lines), name));
        assert(holds("  Relations Breakdown:\n"@ + concat(lines), n));
    }
}

/// What is stored of a memory stands in the column of its name, and is read from
/// there.
pub proof fn law_memory_columns(m: MemoryView, columns: Seq<Option<Seq<char>>>)
    requires
        columns == (ChangeView::Insert { memory: m }).params(),
    ensures
        columns.len() == 9,
        columns[0] == Some(m.id),
        columns[1] == Some(m.kind.text()),
        columns[2] == Some(m.title),
        columns[3] == Some(m.body),
        columns[4] == m.tags,
        columns[5] == Some(m.status.text()),
        columns[6] == m.session_id,
        columns[7] == Some(m.created_at),
        columns[8] == Some(m.updated_at),
        memory_of(columns) == m,
{
    crate::db::law_memory_read_back(m);
}

/// What is stored of an edge stands in the column of its name, and is read from
/// there.
pub proof fn law_relation_columns(r: RelationView, columns: Seq<Option<Seq<char>>>)
    requires
        columns == (ChangeView::PutRelation { relation: r }).params(),
    ensures
        columns.len() == 4,
        columns[0] == Some(r.source_id),
        columns[1] == Some(r.target_id),
        columns[2] == Some(r.relation_type.text()),
        columns[3] == Some(r.created_at),
        relation_of(columns) == r,
{
    crate::db::law_relation_read_back(r);
}

/// The other changes are stored for the memory that they are about, with what
/// they change.
pub proof fn law_change_parameters(c: ChangeView)
    ensures
        c matches ChangeView::SetStatus { id, status, at } ==> c.params().len() == 3 && c.params()[0]
            == Some(id) && c.params()[1] == Some(status.text()) && c.params()[2] == Some(at),
        c matches ChangeView::Rewrite { id, status, body, at } ==> c.params().len() == 4
            && c.params()[0] == Some(id) && c.params()[1] == Some(status.text()) && c.params()[2]
            == Some(body) && c.params()[3] == Some(at),
        c matches ChangeView::Delete { id } ==> c.params().len() == 1 && c.params()[0] == Some(id),
        c matches ChangeView::PutEmbedding { id, vector } ==> c.params().len() == 2 && c.params()[0]
            == Some(id) && c.params()[1] == Some(vector),
{
}

/// The entry of the server tells the program and the database that were given.
pub proof fn law_server_entry(command: Seq<char>, db: Option<Seq<char>>)
    ensures
        ({
            let e = server_entry(command, db);
            &&& e.text_at("command"@) == Some(command)
            &&& e.array_at("args"@) matches Some(args) && args.len() == 1 && args[0]
                == JsonView::Text("serve"@)
            &&& db is None ==> e.get("env"@) is None
            &&& db matches Some(path) ==> (e.get("env"@) matches Some(env) && env.text_at(
                "MEMDAG_DB"@,
            ) == Some(path))
        }),
{
    reveal_strlit("command");
    reveal_strlit("args");
    reveal_strlit("env");
    assert("command"@[0] != "args"@[0] && "args"@[0] != "env"@[0] && "command"@[0] != "env"@[0]);
    let args = JsonView::Array(Seq::empty().push(JsonView::Text("serve"@)));
    let a = empty_object();
    let b = a.with("command"@, JsonView::Text(command));
    let c = b.with("args"@, args);
    crate::requests::law_json_builders(a, "command"@, JsonView::Text(command), "args"@);
    crate::requests::law_json_builders(a, "command"@, JsonView::Text(command), "env"@);
    crate::requests::law_json_builders(b, "args"@, args, "command"@);
    crate::requests::law_json_builders(b, "args"@, args, "env"@);
    if let Some(path) = db {
        let env = a.with("MEMDAG_DB"@, JsonView::Text(path));
        crate::requests::law_json_builders(a, "MEMDAG_DB"@, JsonView::Text(path), "env"@);
        crate::requests::law_json_builders(c, "env"@, env, "command"@);
        crate::requests::law_json_builders(c, "env"@, env, "args"@);
    }
}

/// A user is warned of a program exactly where one of the directories that lead
/// to it is passing or the last is not searched for programs, and is told which
/// program it is.
pub proof fn law_install_warning(
    exe: Seq<char>,
    dirs: Seq<Seq<char>>,
    dir: Seq<char>,
    search_path: Seq<Seq<char>>,
)
    ensures
        install_warning_text(exe, dirs, dir, search_path) is None <==> (forall|i: int|
            0 <= i < dirs.len() ==> !is_passing_dir(#[trigger] dirs[i])) && search_path.contains(
            dir,
        ),
        install_warning_text(exe, dirs, dir, search_path) matches Some(text) ==> holds(text, exe),
{
    broadcast use {lemma_holds_itself, lemma_holds_part};

}

} // verus!

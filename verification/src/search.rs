//! Search: the query that is handed to the text index, and what is made of the
//! hits.

use crate::models::{
    Memory, MemoryKind, MemoryRelation, MemorySearchResult, MemoryStatus, MemoryView,
    SearchResultView,
};
use crate::queries::{first, list_rows, listing, related, related_of};
use crate::rows::{find_row, memory_rows, relation_rows};
use crate::tables::{find, lemma_filter_elements, lemma_filter_take, Tables};
use crate::text::{
    alphanumeric, chars_of, is_alphanumeric, is_white_space, join, joined, same_text, texts,
    white_space,
};
use vstd::prelude::*;
use vstd::string::*;

verus! {

/// What to search for.
#[derive(Debug, Clone)]
pub struct SearchOptions {
    pub query: String,
    /// The kind to keep to, where there is one.
    pub kind: Option<MemoryKind>,
    /// Whether memories that are not active are found too.
    pub include_resolved: bool,
    pub limit: usize,
}

/// The value of a [`SearchOptions`].
#[verifier::ext_equal]
pub ghost struct SearchView {
    pub query: Seq<char>,
    pub kind: Option<MemoryKind>,
    pub include_resolved: bool,
    pub limit: nat,
}

impl View for SearchOptions {
    type V = SearchView;

    open spec fn view(&self) -> SearchView {
        SearchView {
            query: self.query@,
            kind: self.kind,
            include_resolved: self.include_resolved,
            limit: self.limit as nat,
        }
    }
}

impl Default for SearchOptions {
    fn default() -> (res: SearchOptions)
        ensures
            res@ == (SearchView {
                query: Seq::empty(),
                kind: None,
                include_resolved: false,
                limit: 10,
            }),
    {
        SearchOptions { query: String::new(), kind: None, include_resolved: false, limit: 10 }
    }
}

/// How many characters of `s` come before the first white space.
pub open spec fn word_len(s: Seq<char>) -> nat
    decreases s.len(),
{
    if s.len() == 0 || white_space(s[0]) {
        0
    } else {
        1 + word_len(s.drop_first())
    }
}

/// A word ends at white space or with the text.
pub proof fn lemma_word_len(s: Seq<char>)
    ensures
        word_len(s) <= s.len(),
        forall|i: int| 0 <= i < word_len(s) ==> !white_space(#[trigger] s[i]),
        word_len(s) < s.len() ==> white_space(s[word_len(s) as int]),
    decreases s.len(),
{
    if s.len() > 0 && !white_space(s[0]) {
        lemma_word_len(s.drop_first());
        assert forall|i: int| 0 <= i < word_len(s) implies !white_space(#[trigger] s[i]) by {
            if i > 0 {
                assert(s[i] == s.drop_first()[i - 1]);
            }
        }
    }
}

/// The words of `s`: what stands between white space.
pub open spec fn words(s: Seq<char>) -> Seq<Seq<char>>
    decreases s.len(),
{
    if s.len() == 0 {
        Seq::empty()
    } else if white_space(s[0]) {
        words(s.drop_first())
    } else {
        proof {
            lemma_word_len(s);
        }
        let n = word_len(s) as int;
        seq![s.take(n)] + words(s.skip(n))
    }
}

/// The characters that a search term may hold.
pub open spec fn is_term_char(c: char) -> bool {
    alphanumeric(c) || c == '_' || c == '-'
}

/// What a word contributes to a search term.
pub open spec fn term(word: Seq<char>) -> Seq<char> {
    word.filter(|c: char| is_term_char(c))
}

/// The terms of a query: what is left of its words, where anything is.
pub open spec fn terms(query: Seq<char>) -> Seq<Seq<char>> {
    words(query).map_values(|w: Seq<char>| term(w)).filter(|t: Seq<char>| t.len() > 0)
}

/// A term as the text index reads it: a quoted prefix.
pub open spec fn prefix_match(t: Seq<char>) -> Seq<char> {
    seq!['"'] + t + seq!['"', '*']
}

/// The query of the text index for what a user typed.
pub open spec fn sanitized(query: Seq<char>) -> Seq<char> {
    joined(terms(query).map_values(|t: Seq<char>| prefix_match(t)), seq![' '])
}

/// The terms of the words `ws`, as the text index reads them.
spec fn matches_of(ws: Seq<Seq<char>>) -> Seq<Seq<char>> {
    ws.map_values(|w: Seq<char>| term(w)).filter(|t: Seq<char>| t.len() > 0).map_values(
        |t: Seq<char>| prefix_match(t),
    )
}

proof fn lemma_matches_push(ws: Seq<Seq<char>>, w: Seq<char>)
    ensures
        term(w).len() > 0 ==> matches_of(ws.push(w)) == matches_of(ws).push(prefix_match(term(w))),
        term(w).len() == 0 ==> matches_of(ws.push(w)) == matches_of(ws),
{
    let t = ws.map_values(|w: Seq<char>| term(w));
    let keep = |t: Seq<char>| t.len() > 0;
    let quote = |t: Seq<char>| prefix_match(t);
    assert(ws.push(w).map_values(|w: Seq<char>| term(w)) =~= t.push(term(w)));
    reveal(Seq::filter);
    assert(t.push(term(w)).drop_last() =~= t);
    if term(w).len() > 0 {
        assert(t.filter(keep).push(term(w)).map_values(quote) =~= t.filter(keep).map_values(
            quote,
        ).push(prefix_match(term(w))));
    }
}

/// The query of the text index for what a user typed: each word reduced to
/// letters, digits, underscores and hyphens, quoted, and matched as a prefix.
pub fn sanitize_fts5_query(input: &str) -> (res: String)
    ensures
        res@ == sanitized(input@),
{
    let cs = chars_of(input);
    let n: usize = cs.len();
    let ghost s = input@;
    let mut tokens: Vec<String> = Vec::new();
    let ghost mut done: Seq<Seq<char>> = Seq::empty();
    let mut i: usize = 0;
    proof {
        assert(s.skip(0) =~= s);
        assert(done + words(s) =~= words(s));
        assert(texts(tokens@) =~= matches_of(done));
    }
    while i < n
        invariant
            i <= n,
            n == cs@.len(),
            cs@ == s,
            words(s) == done + words(s.skip(i as int)),
            texts(tokens@) == matches_of(done),
        decreases n - i,
    {
        let ghost rest = s.skip(i as int);
        if is_white_space(cs[i]) {
            proof {
                assert(rest.drop_first() =~= s.skip(i + 1));
            }
            i += 1;
        } else {
            let start: usize = i;
            let ghost word = rest.take(word_len(rest) as int);
            let ghost keep = |c: char| is_term_char(c);
            let mut token = String::new();
            token.push('"');
            let mut kept: usize = 0;
            proof {
                lemma_word_len(rest);
                assert(rest.take(0).filter(keep) =~= Seq::<char>::empty());
                assert(token@ =~= seq!['"'] + rest.take(0).filter(keep));
            }
            while i < n && !is_white_space(cs[i])
                invariant
                    start <= i <= n,
                    n == cs@.len(),
                    cs@ == s,
                    rest == s.skip(start as int),
                    keep == (|c: char| is_term_char(c)),
                    forall|k: int| start <= k < i ==> !white_space(#[trigger] s[k]),
                    token@ == seq!['"'] + rest.take(i - start).filter(keep),
                    kept == rest.take(i - start).filter(keep).len(),
                    kept <= i - start,
                decreases n - i,
            {
                let ghost before = rest.take(i - start);
                proof {
                    assert(rest.take(i + 1 - start) =~= before.push(s[i as int]));
                    reveal(Seq::filter);
                    assert(before.push(s[i as int]).drop_last() =~= before);
                }
                if is_alphanumeric(cs[i]) || cs[i] == '_' || cs[i] == '-' {
                    token.push(cs[i]);
                    kept += 1;
                    proof {
                        assert((seq!['"'] + before.filter(keep)).push(s[i as int]) =~= seq!['"']
                            + before.filter(keep).push(s[i as int]));
                    }
                }
                i += 1;
            }
            proof {
                let m = word_len(rest) as int;
                lemma_word_len(rest);
                assert(m == i - start) by {
                    if m < i - start {
                        assert(s[start + m] == rest[m]);
                    }
                    if m > i - start {
                        assert(s[i as int] == rest[i - start]);
                    }
                }
                assert(rest.skip(m) =~= s.skip(i as int));
                assert(words(rest) == seq![word] + words(s.skip(i as int)));
                assert(done + (seq![word] + words(s.skip(i as int))) =~= done.push(word) + words(
                    s.skip(i as int),
                ));
                lemma_matches_push(done, word);
            }
            if kept > 0 {
                token.push('"');
                token.push('*');
                let ghost before = texts(tokens@);
                proof {
                    assert(token@ =~= prefix_match(term(word)));
                }
                tokens.push(token);
                proof {
                    assert(texts(tokens@) =~= before.push(prefix_match(term(word))));
                }
            }
            proof {
                done = done.push(word);
            }
        }
    }
    proof {
        assert(words(s.skip(i as int)) =~= Seq::<Seq<char>>::empty());
        assert(done =~= words(s));
        reveal_strlit(" ");
        assert(" "@ =~= seq![' ']);
    }
    join(&tokens, " ")
}

/// A row that an index found, with the score it gave.
#[derive(Debug, Clone)]
pub struct Hit {
    pub id: String,
    /// The score, as the bits of a binary64 number.
    pub score: u64,
}

/// The value of a [`Hit`].
#[verifier::ext_equal]
pub ghost struct HitView {
    pub id: Seq<char>,
    pub score: u64,
}

impl View for Hit {
    type V = HitView;

    open spec fn view(&self) -> HitView {
        HitView { id: self.id@, score: self.score }
    }
}

/// The values of hits.
pub open spec fn hit_rows(hits: Seq<Hit>) -> Seq<HitView> {
    hits.map_values(|h: Hit| h@)
}

/// The values of search results.
pub open spec fn result_rows(results: Seq<MemorySearchResult>) -> Seq<SearchResultView> {
    results.map_values(|r: MemorySearchResult| r@)
}

/// A limit brought into the range that an index serves.
pub open spec fn clamped(limit: nat) -> nat {
    if limit < 1 {
        1
    } else if limit > 100 {
        100
    } else {
        limit
    }
}

/// A limit brought into the range that an index serves.
pub fn clamp_limit(limit: usize) -> (res: usize)
    ensures
        res == clamped(limit as nat),
{
    if limit < 1 {
        1
    } else if limit > 100 {
        100
    } else {
        limit
    }
}

/// Whether a search finds the memory `m` where the index does.
pub open spec fn is_searched(
    m: MemoryView,
    include_resolved: bool,
    kind: Option<MemoryKind>,
) -> bool {
    (include_resolved || m.status == MemoryStatus::Active) && (kind matches Some(k) ==> m.kind == k)
}

/// Whether a hit is a memory that the search finds.
pub open spec fn is_match(
    memories: Seq<MemoryView>,
    h: HitView,
    include_resolved: bool,
    kind: Option<MemoryKind>,
) -> bool {
    find(memories, h.id) matches Some(m) && is_searched(m, include_resolved, kind)
}

/// The memory `m` with its neighbours.
pub open spec fn expanded(t: Tables, m: MemoryView, rank: u64) -> SearchResultView {
    SearchResultView { memory: m, rank: rank, relations: related(t, m.id) }
}

/// The memory of a hit, with its neighbours.
pub open spec fn expanded_hit(t: Tables, h: HitView) -> SearchResultView {
    expanded(t, find(t.memories, h.id)->0, h.score)
}

/// The first `limit` hits that the search finds, in the order of the hits.
pub open spec fn matched(
    t: Tables,
    hits: Seq<HitView>,
    include_resolved: bool,
    kind: Option<MemoryKind>,
    limit: nat,
) -> Seq<SearchResultView> {
    first(
        hits.filter(|h: HitView| is_match(t.memories, h, include_resolved, kind)),
        limit,
    ).map_values(|h: HitView| expanded_hit(t, h))
}

/// The latest memories that the search finds, with their neighbours.
pub open spec fn recent(t: Tables, o: SearchView) -> Seq<SearchResultView> {
    listing(
        t.memories,
        if o.include_resolved {
            None
        } else {
            Some(MemoryStatus::Active)
        },
        o.kind,
        o.limit,
    ).map_values(|m: MemoryView| expanded(t, m, 0))
}

/// What a search gives: the hits of the text index, or the latest memories
/// where the query has no terms.
pub open spec fn search_results(t: Tables, o: SearchView, hits: Seq<HitView>) -> Seq<
    SearchResultView,
> {
    if terms(o.query).len() == 0 {
        recent(t, o)
    } else {
        matched(t, hits, o.include_resolved, o.kind, clamped(o.limit))
    }
}

/// The hits that exist, in the order of the hits.
pub open spec fn nearest(t: Tables, hits: Seq<HitView>, limit: nat) -> Seq<SearchResultView> {
    matched(t, hits, true, None, clamped(limit))
}

/// Joining nothing but non-empty texts gives nothing only where there are none.
proof fn lemma_joined_len(parts: Seq<Seq<char>>, sep: Seq<char>)
    requires
        forall|i: int| 0 <= i < parts.len() ==> (#[trigger] parts[i]).len() > 0,
    ensures
        joined(parts, sep).len() == 0 <==> parts.len() == 0,
{
    if parts.len() > 0 {
        assert(parts.last().len() > 0);
    }
}

/// The query for the text index is empty exactly where there are no terms.
pub proof fn law_sanitized_empty(query: Seq<char>)
    ensures
        sanitized(query).len() == 0 <==> terms(query).len() == 0,
{
    let parts = terms(query).map_values(|t: Seq<char>| prefix_match(t));
    assert forall|i: int| 0 <= i < parts.len() implies (#[trigger] parts[i]).len() > 0 by {
        assert(parts[i] == prefix_match(terms(query)[i]));
    }
    lemma_joined_len(parts, seq![' ']);
}

/// A text has a term exactly where one of its characters may stand in one.
proof fn lemma_words_kept(s: Seq<char>)
    ensures
        terms(s).len() == 0 <==> forall|i: int| 0 <= i < s.len() ==> !is_term_char(#[trigger] s[i]),
    decreases s.len(),
{
    let some = |t: Seq<char>| t.len() > 0;
    let as_term = |w: Seq<char>| term(w);
    let keep = |c: char| is_term_char(c);
    if s.len() == 0 {
        assert(words(s).map_values(as_term) =~= Seq::empty());
        reveal(Seq::filter);
    } else if white_space(s[0]) {
        let rest = s.drop_first();
        lemma_words_kept(rest);
        assert(terms(s) == terms(rest));
        assert(!is_term_char(s[0]));
        assert forall|i: int| 0 <= i < rest.len() implies rest[i] == #[trigger] s[i + 1] by {}
        if terms(s).len() == 0 {
            assert forall|i: int| 0 <= i < s.len() implies !is_term_char(#[trigger] s[i]) by {
                if i > 0 {
                    assert(!is_term_char(rest[i - 1]));
                }
            }
        } else {
            let k = choose|k: int| 0 <= k < rest.len() && is_term_char(#[trigger] rest[k]);
            assert(is_term_char(s[k + 1]));
        }
    } else {
        lemma_word_len(s);
        let n = word_len(s) as int;
        let word = s.take(n);
        let rest = s.skip(n);
        lemma_words_kept(rest);
        let one = seq![term(word)];
        let others = words(rest).map_values(as_term);
        assert(words(s).map_values(as_term) =~= one + others);
        lemma_filter_concat(one, others, some);
        assert(terms(s) == one.filter(some) + terms(rest));
        assert(one.filter(some).len() == 0 <==> term(word).len() == 0) by {
            reveal_with_fuel(Seq::filter, 2);
            assert(one.drop_last() =~= Seq::empty());
        }
        lemma_filter_elements(word, keep);
        if terms(s).len() == 0 {
            assert forall|i: int| 0 <= i < s.len() implies !is_term_char(#[trigger] s[i]) by {
                if i < n {
                    assert(word[i] == s[i]);
                    if keep(word[i]) {
                        assert(term(word).contains(word[i]));
                    }
                } else {
                    assert(rest[i - n] == s[i]);
                }
            }
        } else if term(word).len() > 0 {
            assert(keep(term(word)[0]));
            let k = choose|k: int| 0 <= k < word.len() && word[k] == term(word)[0];
            assert(is_term_char(s[k]));
        } else {
            let k = choose|k: int| 0 <= k < rest.len() && is_term_char(#[trigger] rest[k]);
            assert(is_term_char(s[k + n]));
        }
    }
}

/// Filtering two sequences in a row.
pub proof fn lemma_filter_concat<A>(a: Seq<A>, b: Seq<A>, keep: spec_fn(A) -> bool)
    ensures
        (a + b).filter(keep) == a.filter(keep) + b.filter(keep),
    decreases b.len(),
{
    reveal(Seq::filter);
    if b.len() == 0 {
        assert(a + b =~= a);
        assert(a.filter(keep) + b.filter(keep) =~= a.filter(keep));
    } else {
        lemma_filter_concat(a, b.drop_last(), keep);
        assert((a + b).drop_last() =~= a + b.drop_last());
        assert((a.filter(keep) + b.drop_last().filter(keep)).push(b.last()) =~= a.filter(keep)
            + b.drop_last().filter(keep).push(b.last()));
    }
}

/// The query for the text index is empty exactly where none of the characters
/// that a user typed is a letter, a digit, an underscore or a hyphen.
pub proof fn law_sanitized_empty_of_characters(query: Seq<char>)
    ensures
        sanitized(query).len() == 0 <==> forall|i: int|
            0 <= i < query.len() ==> !is_term_char(#[trigger] query[i]),
{
    law_sanitized_empty(query);
    lemma_words_kept(query);
}

/// The query for the text index, where the search needs one.
pub fn index_query(opts: &SearchOptions) -> (res: Option<String>)
    ensures
        match res {
            Some(q) => terms(opts@.query).len() > 0 && q@ == sanitized(opts@.query),
            None => terms(opts@.query).len() == 0,
        },
{
    let q = sanitize_fts5_query(opts.query.as_str());
    proof {
        law_sanitized_empty(opts@.query);
    }
    if same_text(q.as_str(), "") {
        proof {
            reveal_strlit("");
        }
        None
    } else {
        proof {
            reveal_strlit("");
            if q@.len() == 0 {
                assert(q@ =~= ""@);
            }
        }
        Some(q)
    }
}

/// The latest memories that the search finds, with their neighbours.
pub fn recent_results(
    memories: &Vec<Memory>,
    relations: &Vec<MemoryRelation>,
    opts: &SearchOptions,
) -> (res: Vec<MemorySearchResult>)
    ensures
        result_rows(res@) == recent(
            Tables { memories: memory_rows(memories@), relations: relation_rows(relations@) },
            opts@,
        ),
{
    let ghost t = Tables {
        memories: memory_rows(memories@),
        relations: relation_rows(relations@),
    };
    let ghost f = |m: MemoryView| expanded(t, m, 0);
    let status = if opts.include_resolved {
        None
    } else {
        Some(MemoryStatus::Active)
    };
    let list = list_rows(memories, status, opts.kind, opts.limit);
    let ghost rows = memory_rows(list@);
    let mut res: Vec<MemorySearchResult> = Vec::new();
    let mut i: usize = 0;
    proof {
        assert(result_rows(res@) =~= rows.take(0).map_values(f));
    }
    while i < list.len()
        invariant
            i <= list@.len(),
            rows == memory_rows(list@),
            t == (Tables {
                memories: memory_rows(memories@),
                relations: relation_rows(relations@),
            }),
            f == (|m: MemoryView| expanded(t, m, 0)),
            result_rows(res@) == rows.take(i as int).map_values(f),
        decreases list@.len() - i,
    {
        let neighbours = related_of(memories, relations, list[i].id.as_str());
        let ghost before = result_rows(res@);
        res.push(
            MemorySearchResult { memory: list[i].clone(), rank: 0, relations: neighbours },
        );
        proof {
            let m = rows[i as int];
            assert(m == list@[i as int]@);
            assert(res@.last()@ =~= f(m));
            assert(result_rows(res@) =~= before.push(f(m)));
            assert(rows.take(i + 1).map_values(f) =~= rows.take(i as int).map_values(f).push(f(m)));
        }
        i += 1;
    }
    proof {
        assert(rows.take(i as int) =~= rows);
    }
    res
}

/// The first `limit` hits that the search finds, in the order of the hits.
pub fn matched_results(
    memories: &Vec<Memory>,
    relations: &Vec<MemoryRelation>,
    hits: &Vec<Hit>,
    include_resolved: bool,
    kind: Option<MemoryKind>,
    limit: usize,
) -> (res: Vec<MemorySearchResult>)
    ensures
        result_rows(res@) == matched(
            Tables { memories: memory_rows(memories@), relations: relation_rows(relations@) },
            hit_rows(hits@),
            include_resolved,
            kind,
            limit as nat,
        ),
{
    let ghost t = Tables {
        memories: memory_rows(memories@),
        relations: relation_rows(relations@),
    };
    let ghost keep = |h: HitView| is_match(t.memories, h, include_resolved, kind);
    let ghost f = |h: HitView| expanded_hit(t, h);
    let ghost rows = hit_rows(hits@);
    let mut res: Vec<MemorySearchResult> = Vec::new();
    let mut i: usize = 0;
    proof {
        assert(rows.take(0).filter(keep) =~= Seq::<HitView>::empty());
        assert(result_rows(res@) =~= rows.take(0).filter(keep).map_values(f));
    }
    while i < hits.len() && res.len() < limit
        invariant
            i <= hits@.len(),
            res@.len() <= limit,
            rows == hit_rows(hits@),
            t == (Tables {
                memories: memory_rows(memories@),
                relations: relation_rows(relations@),
            }),
            keep == (|h: HitView| is_match(t.memories, h, include_resolved, kind)),
            f == (|h: HitView| expanded_hit(t, h)),
            result_rows(res@) == rows.take(i as int).filter(keep).map_values(f),
        decreases hits@.len() - i,
    {
        proof {
            lemma_filter_take(rows, i as int, keep);
            assert(rows[i as int] == hits@[i as int]@);
        }
        match find_row(memories, &hits[i].id) {
            Some(m) => {
                let kind_ok = match kind {
                    Some(k) => m.kind == k,
                    None => true,
                };
                if (include_resolved || m.status == MemoryStatus::Active) && kind_ok {
                    let ghost h = rows[i as int];
                    let ghost before = result_rows(res@);
                    let ghost kept = rows.take(i as int).filter(keep);
                    let neighbours = related_of(memories, relations, m.id.as_str());
                    res.push(
                        MemorySearchResult {
                            memory: m.clone(),
                            rank: hits[i].score,
                            relations: neighbours,
                        },
                    );
                    proof {
                        assert(res@.last()@ =~= f(h));
                        assert(result_rows(res@) =~= before.push(f(h)));
                        assert(kept.push(h).map_values(f) =~= kept.map_values(f).push(f(h)));
                    }
                }
            },
            None => {},
        }
        i += 1;
    }
    proof {
        let some = rows.take(i as int).filter(keep);
        let all = rows.filter(keep);
        assert(some.map_values(f).len() == res@.len());
        if i == hits@.len() {
            assert(rows.take(i as int) =~= rows);
            assert(first(all, limit as nat) =~= all);
        } else {
            lemma_filter_prefix(rows, i as int, keep);
            assert(first(all, limit as nat) =~= some);
        }
    }
    res
}

/// What passes a filter in a prefix is a prefix of what passes it.
proof fn lemma_filter_prefix(rows: Seq<HitView>, i: int, keep: spec_fn(HitView) -> bool)
    requires
        0 <= i <= rows.len(),
    ensures
        rows.take(i).filter(keep).len() <= rows.filter(keep).len(),
        rows.filter(keep).take(rows.take(i).filter(keep).len() as int) == rows.take(i).filter(keep),
    decreases rows.len() - i,
{
    if i == rows.len() {
        assert(rows.take(i) =~= rows);
    } else {
        lemma_filter_prefix(rows, i + 1, keep);
        lemma_filter_take(rows, i, keep);
        let n = rows.take(i).filter(keep).len() as int;
        let m = rows.take(i + 1).filter(keep).len() as int;
        assert(rows.filter(keep).take(n) =~= rows.filter(keep).take(m).take(n));
    }
    assert(rows.filter(keep).take(rows.take(i).filter(keep).len() as int) =~= rows.take(i).filter(
        keep,
    ));
}

} // verus!

//! What a command or a tool call comes to, told from its own fields to the
//! tables and to what is answered.

use crate::calls::{
    call_of, consolidate_call, learnings_of, link_call, record_call, search_call,
    search_vector_call, CallView,
};
use crate::cli::{command_call, output_of, Commands};
use crate::findings::within_index;
use crate::json::{empty_object, member, JsonView, NumberView};
use crate::mcp::{
    lookup_of, request_changes, response_to, tool_answer, tool_arguments, tool_changes, tool_name,
    LookupView, RequestView,
};
use crate::models::{
    kind_named, normal_form, opt_text, relation_named, status_named, LearningView, MemoryKind,
    MemoryStatus, RelationType,
};
use crate::outcomes::{
    is_note_of, is_there, law_consolidate_refused, law_consolidated_fields, law_generated_id,
    law_link_refused, law_linked_fields, law_record_refused, law_recorded_fields,
    law_resolved_fields, same_but_for_state,
};
use crate::plans::{consolidate_plan, learning_ids, link_plan, record_plan};
use crate::queries::{listing, ready_listing, related};
use crate::reading::has_edge;
use crate::search::{nearest, sanitized, search_results, terms, HitView, SearchView};
use crate::store::RecordView;
use crate::tables::{find, replay, ChangeView, Tables};
use crate::tools::{answer_of, changes_of, record_id};
use vstd::prelude::*;

verus! {

/// A text that names the kind, in any case and with any white space around it.
pub open spec fn says_kind(s: Seq<char>, kind: MemoryKind) -> bool {
    normal_form(s) == kind.text()
}

/// A text that names the state, in any case and with any white space around it.
pub open spec fn says_status(s: Seq<char>, status: MemoryStatus) -> bool {
    normal_form(s) == status.text()
}

/// A kind is read from its name, and from nothing else.
pub proof fn law_kind_is_read(s: Seq<char>, kind: MemoryKind)
    ensures
        kind_named(normal_form(s)) == Some(kind) <==> says_kind(s, kind),
{
    let n = normal_form(s);
    if says_kind(s, kind) {
        reveal_strlit("decision");
        reveal_strlit("task");
        reveal_strlit("invariant");
        reveal_strlit("blocker");
        reveal_strlit("ephemeral");
        assert("decision"@[0] == 'd' && "task"@[0] == 't' && "invariant"@[0] == 'i'
            && "blocker"@[0] == 'b' && "ephemeral"@[0] == 'e');
    }
}

/// A state is read from its name, and from nothing else.
pub proof fn law_status_is_read(s: Seq<char>, status: MemoryStatus)
    ensures
        status_named(normal_form(s)) == Some(status) <==> says_status(s, status),
{
    if says_status(s, status) {
        reveal_strlit("active");
        reveal_strlit("superseded");
        reveal_strlit("resolved");
        reveal_strlit("ephemeral");
        assert("active"@[0] == 'a' && "superseded"@[0] == 's' && "resolved"@[0] == 'r'
            && "ephemeral"@[0] == 'e');
    }
}

/// A type of edges is read from its name, and only from texts that begin as the
/// name does.
pub proof fn law_relation_is_read(s: Seq<char>, ty: RelationType)
    ensures
        normal_form(s) == ty.text() ==> relation_named(normal_form(s)) == Some(ty),
        relation_named(normal_form(s)) == Some(ty) ==> normal_form(s).len() >= 5 && normal_form(
            s,
        ).take(5) == ty.text().take(5),
{
    reveal_strlit("supersedes");
    reveal_strlit("depends_on");
    reveal_strlit("dependson");
    reveal_strlit("depends");
    reveal_strlit("blocks");
    reveal_strlit("block");
    reveal_strlit("references");
    reveal_strlit("reference");
    let n = normal_form(s);
    assert("supersedes"@[0] == 's' && "depends_on"@[0] == 'd' && "dependson"@[0] == 'd'
        && "depends"@[0] == 'd' && "blocks"@[0] == 'b' && "block"@[0] == 'b' && "references"@[0]
        == 'r' && "reference"@[0] == 'r');
    if relation_named(n) == Some(ty) {
        assert(n.take(5) =~= ty.text().take(5));
    }
}

/// A member of an object is the first of its key; there is none where no member
/// has the key, nor in anything but an object.
pub proof fn law_json_member(j: JsonView, key: Seq<char>, i: int)
    ensures
        !(j is Object) ==> j.get(key) is None,
        j matches JsonView::Object(members) ==> {
            &&& j.get(key) is None <==> forall|k: int|
                0 <= k < members.len() ==> (#[trigger] members[k]).0 != key
            &&& 0 <= i < members.len() && members[i].0 == key && (forall|k: int|
                0 <= k < i ==> (#[trigger] members[k]).0 != key) ==> j.get(key) == Some(
                members[i].1,
            )
        },
{
    if let JsonView::Object(members) = j {
        lemma_member(members, key, i);
    }
}

proof fn lemma_member(members: Seq<(Seq<char>, JsonView)>, key: Seq<char>, i: int)
    ensures
        member(members, key) is None <==> forall|k: int|
            0 <= k < members.len() ==> (#[trigger] members[k]).0 != key,
        0 <= i < members.len() && members[i].0 == key && (forall|k: int|
            0 <= k < i ==> (#[trigger] members[k]).0 != key) ==> member(members, key) == Some(
            members[i].1,
        ),
    decreases members.len(),
{
    if members.len() > 0 && members[0].0 != key {
        let rest = members.drop_first();
        lemma_member(rest, key, i - 1);
        assert forall|k: int| 0 <= k < rest.len() implies #[trigger] rest[k] == members[k + 1] by {}
        if forall|k: int| 0 <= k < rest.len() ==> (#[trigger] rest[k]).0 != key {
            assert forall|k: int| 0 <= k < members.len() implies (#[trigger] members[k]).0
                != key by {
                if k > 0 {
                    assert(rest[k - 1].0 != key);
                }
            }
        } else {
            let k = choose|k: int| 0 <= k < rest.len() && (#[trigger] rest[k]).0 == key;
            assert(members[k + 1].0 == key);
        }
        if 0 < i < members.len() && members[i].0 == key && (forall|k: int|
            0 <= k < i ==> (#[trigger] members[k]).0 != key) {
            assert forall|k: int| 0 <= k < i - 1 implies (#[trigger] rest[k]).0 != key by {
                assert(members[k + 1].0 != key);
            }
        }
    } else if members.len() > 0 {
        assert(members[0].0 == key);
    }
}

/// Texts, truth values, whole numbers and arrays are taken as they stand, and
/// only where they are what is asked for.
pub proof fn law_json_access(
    j: JsonView,
    key: Seq<char>,
    s: Seq<char>,
    b: bool,
    n: u64,
    a: Seq<JsonView>,
)
    ensures
        j.text_at(key) == Some(s) <==> j.get(key) == Some(JsonView::Text(s)),
        j.bool_at(key) == Some(b) <==> j.get(key) == Some(JsonView::Bool(b)),
        j.natural_at(key) == Some(n) <==> j.get(key) == Some(
            JsonView::Number(NumberView::Natural(n)),
        ),
        j.array_at(key) == Some(a) <==> j.get(key) == Some(JsonView::Array(a)),
{
}

/// An object keeps its members and gains one at its end; so does an array.
pub proof fn law_json_builders(j: JsonView, key: Seq<char>, value: JsonView, other: Seq<char>)
    ensures
        j is Object && j.get(key) is None ==> j.with(key, value).get(key) == Some(value),
        j is Object && other != key ==> j.with(key, value).get(other) == j.get(other),
        j matches JsonView::Array(items) ==> (j.item(value) matches JsonView::Array(more)
            && more.len() == items.len() + 1 && more.last() == value && more.drop_last() == items),
{
    if let JsonView::Object(members) = j {
        lemma_member_push(members, key, value, other);
    }
    if let JsonView::Array(items) = j {
        assert(items.push(value).drop_last() =~= items);
    }
}

proof fn lemma_member_push(
    members: Seq<(Seq<char>, JsonView)>,
    key: Seq<char>,
    value: JsonView,
    other: Seq<char>,
)
    ensures
        member(members, key) is None ==> member(members.push((key, value)), key) == Some(value),
        other != key ==> member(members.push((key, value)), other) == member(members, other),
    decreases members.len(),
{
    let more = members.push((key, value));
    if members.len() == 0 {
        assert(more.drop_first() =~= members);
        assert(more[0].0 == key);
    } else {
        assert(more[0] == members[0]);
        assert(more.drop_first() =~= members.drop_first().push((key, value)));
        lemma_member_push(members.drop_first(), key, value, other);
    }
}

/// A request is answered exactly where its identifier is neither missing nor
/// null. The reply carries that identifier. A method that is not known gets an
/// error, all others a result.
pub proof fn law_reply_fields(
    t: Tables,
    req: RequestView,
    hits: Result<Seq<HitView>, Seq<char>>,
    shorts: Seq<Seq<char>>,
    now: Seq<char>,
)
    ensures
        ({
            let res = response_to(t, req, hits, shorts, now);
            let known = req.method == "initialize"@ || req.method == "ping"@ || req.method
                == "tools/list"@ || req.method == "tools/call"@;
            &&& res is Some <==> (req.id matches Some(id) && id != JsonView::Null)
            &&& res matches Some(r) ==> {
                &&& r.id == req.id
                &&& known <==> r.result is Some
                &&& known <==> r.error is None
                &&& r.error matches Some(e) ==> e.code == -32601 && e.data is None
            }
        }),
{
}

/// What a tool answers is the one text of the reply; a refusal is marked as an
/// error and names the tool and the reason.
pub proof fn law_tool_reply_fields(
    t: Tables,
    req: RequestView,
    hits: Result<Seq<HitView>, Seq<char>>,
    shorts: Seq<Seq<char>>,
    now: Seq<char>,
)
    requires
        req.method == "tools/call"@,
        req.id matches Some(id) && id != JsonView::Null,
    ensures
        ({
            let r = response_to(t, req, hits, shorts, now);
            let name = tool_name(req);
            let args = tool_arguments(req);
            let outcome = tool_answer(t, name, args, hits, shorts, now);
            &&& r is Some && r->0.result is Some
            &&& r->0.result->0.bool_at("isError"@) == Some(outcome is Err)
            &&& r->0.result->0.array_at("content"@) matches Some(parts) && parts.len() == 1
                && parts[0].text_at("type"@) == Some("text"@) && (outcome matches Ok(text)
                ==> parts[0].text_at("text"@) == Some(text)) && (outcome matches Err(e)
                ==> parts[0].text_at("text"@) == Some(
                "Error executing tool '"@ + name + "': "@ + e,
            ))
        }),
{
    reveal_strlit("tools/call");
    reveal_strlit("initialize");
    reveal_strlit("ping");
    reveal_strlit("tools/list");
    reveal_strlit("content");
    reveal_strlit("isError");
    reveal_strlit("type");
    reveal_strlit("text");
    assert("tools/call"@[0] != "initialize"@[0]);
    assert("tools/call"@.len() != "ping"@.len());
    assert("tools/call"@[6] != "tools/list"@[6]);
    assert("content"@[0] != "isError"@[0]);
    assert("type"@[1] != "text"@[1]);
    let outcome = tool_answer(t, tool_name(req), tool_arguments(req), hits, shorts, now);
    let text = match outcome {
        Ok(text) => text,
        Err(e) => "Error executing tool '"@ + tool_name(req) + "': "@ + e,
    };
    let part = empty_object().with("type"@, JsonView::Text("text"@));
    let content = JsonView::Array(Seq::empty().push(part.with("text"@, JsonView::Text(text))));
    lemma_member_push(Seq::empty(), "type"@, JsonView::Text("text"@), "text"@);
    lemma_member_push(part->Object_0, "text"@, JsonView::Text(text), "type"@);
    lemma_member_push(Seq::empty(), "content"@, content, "isError"@);
    lemma_member_push(
        empty_object().with("content"@, content)->Object_0,
        "isError"@,
        JsonView::Bool(outcome is Err),
        "content"@,
    );
}

/// The tool and the arguments of a request are those of its parameters; a request
/// for anything but a tool changes nothing.
pub proof fn law_request_parts(t: Tables, req: RequestView, shorts: Seq<Seq<char>>, now: Seq<char>)
    ensures
        req.params matches Some(p) ==> {
            &&& p.text_at("name"@) matches Some(name) ==> tool_name(req) == name
            &&& p.get("arguments"@) matches Some(args) ==> tool_arguments(req) == args
            &&& p.get("arguments"@) is None ==> tool_arguments(req) == empty_object()
        },
        req.method == "tools/call"@ ==> request_changes(t, req, shorts, now) == tool_changes(
            t,
            tool_name(req),
            tool_arguments(req),
            shorts,
            now,
        ),
        req.method != "tools/call"@ ==> request_changes(t, req, shorts, now) == Seq::<
            ChangeView,
        >::empty(),
{
}

/// The text index is asked for the query of a search that has terms, and the
/// vector index for the embedding and as many memories as it may give; neither is
/// asked for anything else.
pub proof fn law_lookup(req: RequestView)
    ensures
        lookup_of(req) is Nothing || req.method == "tools/call"@,
        lookup_of(req) matches LookupView::Text { query } ==> tool_name(req) == "search_memory"@ && (
        tool_arguments(req).text_at("query"@) matches Some(q) && terms(q).len() > 0 && query
            == sanitized(q)),
        lookup_of(req) matches LookupView::Vector { embedding, k } ==> tool_name(req)
            == "search_vector"@ && (tool_arguments(req).array_at("embedding"@) matches Some(items)
            && items.len() == embedding.len() && forall|i: int|
            0 <= i < items.len() ==> #[trigger] items[i] == JsonView::Number(embedding[i])) && (
        tool_arguments(req).natural_at("limit"@) is None ==> k == 10) && (tool_arguments(
            req,
        ).natural_at("limit"@) matches Some(n) ==> n <= u32::MAX ==> k == within_index(n as nat)),
        req.method == "tools/call"@ && tool_name(req) == "search_vector"@ && (tool_arguments(
            req,
        ).array_at("embedding"@) matches Some(items) && forall|i: int|
            0 <= i < items.len() ==> (#[trigger] items[i]) is Number) ==> lookup_of(req) is Vector,
        req.method == "tools/call"@ && tool_name(req) == "search_memory"@ && (tool_arguments(
            req,
        ).text_at("query"@) matches Some(q) && terms(q).len() > 0) ==> lookup_of(req) is Text,
{
    let args = tool_arguments(req);
    lemma_tool_calls(args);
    assert(terms(Seq::empty()).len() == 0) by {
        crate::search::law_sanitized_empty_of_characters(Seq::empty());
        crate::search::law_sanitized_empty(Seq::empty());
    }
}

/// The tables after a call.
pub open spec fn after(t: Tables, call: CallView, shorts: Seq<Seq<char>>, now: Seq<char>) -> Tables {
    replay(t, changes_of(t, call, shorts, now))
}

/// The identifier `id` is the one that was asked for, or one that was made for
/// the kind from a short text.
pub open spec fn is_new_id(
    id: Seq<char>,
    asked: Option<Seq<char>>,
    kind: MemoryKind,
    shorts: Seq<Seq<char>>,
) -> bool {
    match asked {
        Some(a) => id == a,
        None => id.len() == 4 + shorts[0].len() && id.take(3) == kind.id_prefix() && id.skip(4)
            == shorts[0],
    }
}

/// Whether the memory `old` was superseded by `id` between two tables: it is
/// marked, an edge leads to it from `id`, and it is otherwise as it was.
pub open spec fn was_superseded(t: Tables, u: Tables, old: Seq<char>, id: Seq<char>) -> bool {
    &&& find(t.memories, old) matches Some(was) && find(u.memories, old) matches Some(is)
        && is.status == MemoryStatus::Superseded && same_but_for_state(was, is)
    &&& has_edge(u, id, old, RelationType::Supersedes)
}

/// A call that is refused changes nothing, and is refused alike on the command
/// line and by the tools.
pub proof fn law_refused_call(
    t: Tables,
    call: CallView,
    hits: Result<Seq<HitView>, Seq<char>>,
    shorts: Seq<Seq<char>>,
    now: Seq<char>,
)
    ensures
        answer_of(t, call, hits, shorts, now) is Err <==> output_of(
            t,
            call,
            hits,
            shorts,
            now,
        ) is Err,
        answer_of(t, call, hits, shorts, now) matches Err(e) ==> output_of(
            t,
            call,
            hits,
            shorts,
            now,
        ) == Err::<Seq<char>, Seq<char>>(e) && after(t, call, shorts, now) == t,
{
}

/// What recording comes to, whoever asks for it.
proof fn lemma_record_call(
    t: Tables,
    o: RecordView,
    hits: Result<Seq<HitView>, Seq<char>>,
    shorts: Seq<Seq<char>>,
    now: Seq<char>,
    x: Seq<char>,
) -> (id: Seq<char>)
    requires
        t.valid(),
    ensures
        ({
            let call = CallView::Record { options: o };
            let u = after(t, call, shorts, now);
            &&& is_new_id(id, o.id, o.kind, shorts)
            &&& answer_of(t, call, hits, shorts, now) is Err <==> {
                ||| o.supersedes_id matches Some(old) && !is_there(t, old)
                ||| is_there(t, id)
                ||| o.embedding matches Some(parts) && parts.len() != 384
            }
            &&& answer_of(t, call, hits, shorts, now) is Ok ==> {
                &&& find(u.memories, id) matches Some(m) && m.kind == o.kind && m.title == o.title
                    && m.body == o.body && m.tags == o.tags && m.session_id == o.session_id
                    && m.created_at == now && m.updated_at == now && m.status == (if o.kind
                    == MemoryKind::Ephemeral {
                    MemoryStatus::Ephemeral
                } else {
                    MemoryStatus::Active
                })
                &&& o.supersedes_id matches Some(old) ==> was_superseded(t, u, old, id)
                &&& x != id && o.supersedes_id != Some(x) ==> find(u.memories, x) == find(
                    t.memories,
                    x,
                )
            }
        }),
{
    let id = record_id(o, shorts);
    if o.id is None {
        law_generated_id(o.kind, shorts[0], o.kind, shorts[0]);
        reveal_strlit("DEC");
        reveal_strlit("TSK");
        reveal_strlit("INV");
        reveal_strlit("BLK");
        reveal_strlit("EPH");
        assert(id.take(3) =~= o.kind.id_prefix());
    }
    law_record_refused(t, o, id, now);
    if record_plan(t, o, id, now) is Ok {
        let r = crate::plans::edge(id, id, RelationType::Supersedes, now);
        law_recorded_fields(t, o, id, now, x, r);
    }
    id
}

/// `memdag record`: the memory that is recorded has the kind, title, body, tags
/// and session of the command; the memory that it supersedes is superseded, with
/// an edge from the new one, and where there is none the command is refused.
pub proof fn law_record_command(
    t: Tables,
    command: Commands,
    hits: Result<Seq<HitView>, Seq<char>>,
    shorts: Seq<Seq<char>>,
    now: Seq<char>,
    x: Seq<char>,
) -> (new: Seq<char>)
    requires
        t.valid(),
        command is Record,
    ensures
        command matches Commands::Record { kind, title, body, tags, supersedes, session, id } ==> {
            &&& command_call(command) is Err <==> forall|k: MemoryKind| !says_kind(kind@, k)
            &&& command_call(command) matches Ok(c) ==> (c matches Some(call) && {
                let u = after(t, call, shorts, now);
                &&& output_of(t, call, hits, shorts, now) is Err <==> (supersedes matches Some(old)
                    && !is_there(t, old@)) || is_there(t, new)
                &&& output_of(t, call, hits, shorts, now) is Err ==> u == t
                &&& output_of(t, call, hits, shorts, now) is Ok ==> {
                    &&& find(u.memories, new) matches Some(m) && says_kind(kind@, m.kind)
                        && is_new_id(new, opt_text(id), m.kind, shorts) && m.title == title@
                        && m.body == body@ && m.tags == opt_text(tags) && m.session_id
                        == opt_text(session) && m.created_at == now
                    &&& supersedes matches Some(old) ==> was_superseded(t, u, old@, new)
                    &&& x != new && opt_text(supersedes) != Some(x) ==> find(u.memories, x) == find(
                        t.memories,
                        x,
                    )
                }
            })
        },
{
    if let Commands::Record { kind, title, body, tags, supersedes, session, id } = command {
        assert forall|k: MemoryKind| (kind_named(normal_form(kind@)) == Some(k)) == says_kind(
            kind@,
            k,
        ) by {
            law_kind_is_read(kind@, k);
        }
        if let Ok(Some(call)) = command_call(command) {
            let o = call->Record_options;
            assert(says_kind(kind@, o.kind));
            law_refused_call(t, call, hits, shorts, now);
            let new = lemma_record_call(t, o, hits, shorts, now, x);
            new
        } else {
            Seq::empty()
        }
    } else {
        Seq::empty()
    }
}

/// What a tool that is known is asked for.
pub proof fn lemma_tool_calls(args: JsonView)
    ensures
        call_of("record_memory"@, args) == record_call(args),
        call_of("link_entities"@, args) == link_call(args),
        call_of("search_memory"@, args) == Ok::<CallView, Seq<char>>(search_call(args)),
        call_of("search_vector"@, args) == search_vector_call(args),
        call_of("get_memory"@, args) matches Ok(c) ==> c is Get && args.text_at("id"@) == Some(
            c->Get_id,
        ),
        call_of("get_memory"@, args) is Err <==> args.text_at("id"@) is None,
        call_of("get_memory"@, args) matches Err(e) ==> e == "Missing 'id' parameter"@,
        call_of("list_memories"@, args) matches Ok(c) && c is List && c->status
            == crate::calls::status_arg(args) && c->List_kind == crate::calls::kind_arg(args)
            && c->List_limit == crate::calls::limit_arg(args, 20),
        call_of("list_ready"@, args) matches Ok(c) && c is Ready && c->Ready_limit
            == crate::calls::limit_arg(args, 20),
        call_of("resolve_memory"@, args) matches Ok(c) ==> c is Resolve && args.text_at("id"@)
            == Some(c->Resolve_id) && c->note == args.text_at("note"@),
        call_of("resolve_memory"@, args) is Err <==> args.text_at("id"@) is None,
        call_of("resolve_memory"@, args) matches Err(e) ==> e == "Missing 'id' parameter"@,
        call_of("consolidate_session"@, args) == consolidate_call(args),
{
    reveal_strlit("record_memory");
    reveal_strlit("link_entities");
    reveal_strlit("search_memory");
    reveal_strlit("search_vector");
    reveal_strlit("get_memory");
    reveal_strlit("list_memories");
    reveal_strlit("list_ready");
    reveal_strlit("resolve_memory");
    reveal_strlit("consolidate_session");
    assert("record_memory"@[2] == 'c' && "link_entities"@[2] == 'n' && "search_memory"@[7] == 'm'
        && "search_vector"@[7] == 'v' && "get_memory"@[0] == 'g' && "list_memories"@[5] == 'm'
        && "list_ready"@[5] == 'r' && "resolve_memory"@[2] == 's' && "consolidate_session"@[0]
        == 'c' && "record_memory"@[0] == 'r' && "link_entities"@[0] == 'l' && "search_memory"@[0]
        == 's' && "search_vector"@[0] == 's' && "list_memories"@[0] == 'l' && "list_ready"@[0]
        == 'l' && "resolve_memory"@[0] == 'r' && "list_memories"@[2] == 's' && "list_ready"@[2]
        == 's');
}

/// The tool `record_memory`: the memory that is recorded has what the arguments
/// say; the memory that it supersedes is superseded, with an edge from the new
/// one, and where there is none the call is refused.
pub proof fn law_record_tool(
    t: Tables,
    args: JsonView,
    hits: Result<Seq<HitView>, Seq<char>>,
    shorts: Seq<Seq<char>>,
    now: Seq<char>,
    x: Seq<char>,
) -> (new: Seq<char>)
    requires
        t.valid(),
    ensures
        ({
            let res = tool_answer(t, "record_memory"@, args, hits, shorts, now);
            let u = replay(t, tool_changes(t, "record_memory"@, args, shorts, now));
            &&& res is Err ==> u == t
            &&& res is Err <==> {
                ||| !(args.text_at("kind"@) matches Some(k) && exists|kind: MemoryKind|
                    says_kind(k, kind))
                ||| args.text_at("title"@) is None
                ||| args.text_at("body"@) is None
                ||| args.text_at("supersedes_id"@) matches Some(old) && !is_there(t, old)
                ||| is_there(t, new)
            }
            &&& res is Ok ==> {
                &&& find(u.memories, new) matches Some(m) && is_new_id(
                    new,
                    args.text_at("id"@),
                    m.kind,
                    shorts,
                ) && says_kind(args.text_at("kind"@)->0, m.kind) && args.text_at("title"@) == Some(
                    m.title,
                ) && args.text_at("body"@) == Some(m.body) && args.text_at("tags"@) == m.tags
                    && args.text_at("session_id"@) == m.session_id && m.created_at == now
                &&& args.text_at("supersedes_id"@) matches Some(old) ==> was_superseded(
                    t,
                    u,
                    old,
                    new,
                )
                &&& x != new && args.text_at("supersedes_id"@) != Some(x) ==> find(u.memories, x)
                    == find(t.memories, x)
            }
        }),
{
    lemma_tool_calls(args);
    if let Some(k) = args.text_at("kind"@) {
        assert forall|kind: MemoryKind| (kind_named(normal_form(k)) == Some(kind)) == says_kind(
            k,
            kind,
        ) by {
            law_kind_is_read(k, kind);
        }
        if let Some(kind) = kind_named(normal_form(k)) {
            assert(says_kind(k, kind));
        }
    }
    if let Ok(call) = call_of("record_memory"@, args) {
        lemma_record_call(t, call->Record_options, hits, shorts, now, x)
    } else {
        Seq::empty()
    }
}

/// What linking comes to, whoever asks for it.
proof fn lemma_link_call(
    t: Tables,
    source: Seq<char>,
    target: Seq<char>,
    ty: RelationType,
    hits: Result<Seq<HitView>, Seq<char>>,
    shorts: Seq<Seq<char>>,
    now: Seq<char>,
    x: Seq<char>,
)
    requires
        t.valid(),
    ensures
        ({
            let call = CallView::Link { source_id: source, target_id: target, relation_type: ty };
            let u = after(t, call, shorts, now);
            &&& answer_of(t, call, hits, shorts, now) is Err <==> !is_there(t, source) || !is_there(
                t,
                target,
            )
            &&& answer_of(t, call, hits, shorts, now) is Ok ==> {
                &&& has_edge(u, source, target, ty)
                &&& ty == RelationType::Supersedes ==> was_superseded(t, u, target, source)
                &&& ty != RelationType::Supersedes || x != target ==> find(u.memories, x) == find(
                    t.memories,
                    x,
                )
            }
        }),
{
    law_link_refused(t, source, target, ty, now);
    if link_plan(t, source, target, ty, now) is Ok {
        law_linked_fields(t, source, target, ty, now, source, target, ty, x);
    }
}

/// `memdag link`: the edge that is put leads from the first memory named to the
/// second, and is of the type named; where an end is missing it is refused.
pub proof fn law_link_command(
    t: Tables,
    command: Commands,
    hits: Result<Seq<HitView>, Seq<char>>,
    shorts: Seq<Seq<char>>,
    now: Seq<char>,
    x: Seq<char>,
)
    requires
        t.valid(),
    ensures
        command matches Commands::Link { source_id, target_id, relation } ==> {
            &&& command_call(command) is Err <==> relation_named(normal_form(relation@)) is None
            &&& command_call(command) matches Ok(c) ==> (c matches Some(call) && {
                let u = after(t, call, shorts, now);
                let ty = relation_named(normal_form(relation@))->0;
                &&& output_of(t, call, hits, shorts, now) is Err <==> !is_there(t, source_id@)
                    || !is_there(t, target_id@)
                &&& output_of(t, call, hits, shorts, now) is Err ==> u == t
                &&& output_of(t, call, hits, shorts, now) is Ok ==> {
                    &&& has_edge(u, source_id@, target_id@, ty)
                    &&& ty == RelationType::Supersedes ==> was_superseded(
                        t,
                        u,
                        target_id@,
                        source_id@,
                    )
                    &&& ty != RelationType::Supersedes || x != target_id@ ==> find(u.memories, x)
                        == find(t.memories, x)
                }
            })
        },
{
    if let Commands::Link { source_id, target_id, relation } = command {
        if let Ok(Some(call)) = command_call(command) {
            law_refused_call(t, call, hits, shorts, now);
            lemma_link_call(
                t,
                source_id@,
                target_id@,
                call->relation_type,
                hits,
                shorts,
                now,
                x,
            );
        }
    }
}

/// The tool `link_entities`: the edge that is put leads from the source to the
/// target of the arguments, and is of their type.
pub proof fn law_link_tool(
    t: Tables,
    args: JsonView,
    hits: Result<Seq<HitView>, Seq<char>>,
    shorts: Seq<Seq<char>>,
    now: Seq<char>,
    x: Seq<char>,
)
    requires
        t.valid(),
    ensures
        ({
            let res = tool_answer(t, "link_entities"@, args, hits, shorts, now);
            let u = replay(t, tool_changes(t, "link_entities"@, args, shorts, now));
            let source = args.text_at("source_id"@);
            let target = args.text_at("target_id"@);
            let relation = args.text_at("relation_type"@);
            &&& res is Err ==> u == t
            &&& res is Err <==> {
                ||| source is None || target is None || relation is None
                ||| relation_named(normal_form(relation->0)) is None
                ||| !is_there(t, source->0) || !is_there(t, target->0)
            }
            &&& res is Ok ==> {
                let ty = relation_named(normal_form(relation->0))->0;
                &&& has_edge(u, source->0, target->0, ty)
                &&& ty == RelationType::Supersedes ==> was_superseded(t, u, target->0, source->0)
                &&& ty != RelationType::Supersedes || x != target->0 ==> find(u.memories, x)
                    == find(t.memories, x)
            }
        }),
{
    lemma_tool_calls(args);
    if let Ok(CallView::Link { source_id, target_id, relation_type }) = call_of(
        "link_entities"@,
        args,
    ) {
        lemma_link_call(t, source_id, target_id, relation_type, hits, shorts, now, x);
    }
}

/// A memory that was resolved: it is in that state, holds its old body and the
/// note, and is otherwise as it was.
pub open spec fn was_resolved(
    t: Tables,
    u: Tables,
    id: Seq<char>,
    note: Option<Seq<char>>,
    now: Seq<char>,
) -> bool {
    find(t.memories, id) matches Some(was) && find(u.memories, id) matches Some(is) && {
        &&& is.status == MemoryStatus::Resolved
        &&& is.updated_at == now
        &&& is.kind == was.kind
        &&& is.title == was.title
        &&& is.tags == was.tags
        &&& is.session_id == was.session_id
        &&& is.created_at == was.created_at
        &&& note is None ==> is.body == was.body
        &&& note matches Some(n) ==> is.body.len() >= was.body.len() + n.len() && is.body.take(
            was.body.len() as int,
        ) == was.body && is.body.skip(is.body.len() - n.len()) == n
    }
}

/// `memdag resolve`: the memory named is resolved, with the note of the command;
/// nothing else changes. Where there is no such memory it is refused.
pub proof fn law_resolve_command(
    t: Tables,
    command: Commands,
    hits: Result<Seq<HitView>, Seq<char>>,
    shorts: Seq<Seq<char>>,
    now: Seq<char>,
    x: Seq<char>,
)
    ensures
        command matches Commands::Resolve { id, note } ==> {
            &&& command_call(command) matches Ok(c) && c matches Some(call) && {
                let u = after(t, call, shorts, now);
                &&& output_of(t, call, hits, shorts, now) is Err <==> !is_there(t, id@)
                &&& output_of(t, call, hits, shorts, now) is Err ==> u == t
                &&& output_of(t, call, hits, shorts, now) is Ok ==> was_resolved(
                    t,
                    u,
                    id@,
                    opt_text(note),
                    now,
                ) && u.relations == t.relations && (x != id@ ==> find(u.memories, x) == find(
                    t.memories,
                    x,
                ))
            }
        },
{
    if let Commands::Resolve { id, note } = command {
        law_resolved_fields(t, id@, opt_text(note), now, x);
    }
}

/// The tool `resolve_memory`: the memory named is resolved, with the note of the
/// arguments; nothing else changes.
pub proof fn law_resolve_tool(
    t: Tables,
    args: JsonView,
    hits: Result<Seq<HitView>, Seq<char>>,
    shorts: Seq<Seq<char>>,
    now: Seq<char>,
    x: Seq<char>,
)
    ensures
        ({
            let res = tool_answer(t, "resolve_memory"@, args, hits, shorts, now);
            let u = replay(t, tool_changes(t, "resolve_memory"@, args, shorts, now));
            let id = args.text_at("id"@);
            &&& res is Err ==> u == t
            &&& res is Err <==> id is None || !is_there(t, id->0)
            &&& res is Ok ==> was_resolved(t, u, id->0, args.text_at("note"@), now) && u.relations
                == t.relations && (x != id->0 ==> find(u.memories, x) == find(t.memories, x))
        }),
{
    lemma_tool_calls(args);
    if let Some(id) = args.text_at("id"@) {
        law_resolved_fields(t, id, args.text_at("note"@), now, x);
    }
}

/// Whether the learning `l` is recorded under `id`, field by field.
pub open spec fn was_learned(
    u: Tables,
    id: Seq<char>,
    l: LearningView,
    session: Seq<char>,
    now: Seq<char>,
) -> bool {
    find(u.memories, id) matches Some(m) && m.title == l.title && m.body == l.body && m.tags
        == l.tags && m.kind == l.kind && m.session_id == Some(session) && m.status
        == MemoryStatus::Active && m.created_at == now
}

/// What a consolidation does to a memory that was there.
pub open spec fn was_cleared(
    t: Tables,
    u: Tables,
    session: Seq<char>,
    purge: bool,
    now: Seq<char>,
    x: Seq<char>,
) -> bool {
    find(t.memories, x) matches Some(was) ==> {
        &&& is_note_of(was, session) && purge ==> find(u.memories, x) is None
        &&& is_note_of(was, session) && !purge ==> (find(u.memories, x) matches Some(is)
            && is.status == MemoryStatus::Resolved && is.updated_at == now && same_but_for_state(
            was,
            is,
        ))
        &&& !is_note_of(was, session) ==> find(u.memories, x) == Some(was)
    }
}

/// What consolidating comes to, whoever asks for it.
proof fn lemma_consolidate_call(
    t: Tables,
    session: Seq<char>,
    learnings: Seq<LearningView>,
    purge: bool,
    hits: Result<Seq<HitView>, Seq<char>>,
    shorts: Seq<Seq<char>>,
    now: Seq<char>,
    i: int,
    x: Seq<char>,
) -> (ids: Seq<Seq<char>>)
    requires
        t.valid(),
    ensures
        ({
            let call = CallView::Consolidate {
                session_id: session,
                learnings: learnings,
                purge_ephemeral: purge,
            };
            let u = after(t, call, shorts, now);
            &&& ids.len() == learnings.len()
            &&& 0 <= i < ids.len() ==> ids[i].take(3) == learnings[i].kind.id_prefix()
                && ids[i].skip(4) == shorts[i]
            &&& answer_of(t, call, hits, shorts, now) is Err <==> exists|k: int|
                0 <= k < ids.len() && (is_there(t, #[trigger] ids[k]) || exists|j: int|
                    0 <= j < k && #[trigger] ids[j] == ids[k])
            &&& answer_of(t, call, hits, shorts, now) is Ok ==> {
                &&& 0 <= i < learnings.len() ==> was_learned(u, ids[i], learnings[i], session, now)
                &&& was_cleared(t, u, session, purge, now, x)
            }
        }),
{
    let ids = learning_ids(learnings, shorts);
    crate::outcomes::law_learning_ids(learnings, shorts, i);
    law_consolidate_refused(t, session, learnings, ids, purge, now);
    if consolidate_plan(t, session, learnings, ids, purge, now) is Ok {
        let r = crate::plans::edge(x, x, RelationType::Blocks, now);
        law_consolidated_fields(t, session, learnings, ids, purge, now, i, x, r);
    }
    ids
}

/// `memdag consolidate`: the learning of the command is recorded as it says, and
/// the session's notes go or, where the command says so, are put away.
pub proof fn law_consolidate_command(
    t: Tables,
    command: Commands,
    hits: Result<Seq<HitView>, Seq<char>>,
    shorts: Seq<Seq<char>>,
    now: Seq<char>,
    x: Seq<char>,
) -> (new: Seq<char>)
    requires
        t.valid(),
        command is Consolidate,
    ensures
        command matches Commands::Consolidate { session, title, body, kind, tags, no_purge } ==> {
            &&& command_call(command) is Err <==> forall|k: MemoryKind| !says_kind(kind@, k)
            &&& command_call(command) matches Ok(c) ==> (c matches Some(call) && {
                let u = after(t, call, shorts, now);
                &&& output_of(t, call, hits, shorts, now) is Err <==> is_there(t, new)
                &&& output_of(t, call, hits, shorts, now) is Err ==> u == t
                &&& output_of(t, call, hits, shorts, now) is Ok ==> {
                    &&& find(u.memories, new) matches Some(m) && says_kind(kind@, m.kind)
                        && m.title == title@ && m.body == body@ && m.tags == opt_text(tags)
                        && m.session_id == Some(session@) && m.status == MemoryStatus::Active
                    &&& was_cleared(t, u, session@, !no_purge, now, x)
                }
            })
        },
{
    if let Commands::Consolidate { session, title, body, kind, tags, no_purge } = command {
        assert forall|k: MemoryKind| (kind_named(normal_form(kind@)) == Some(k)) == says_kind(
            kind@,
            k,
        ) by {
            law_kind_is_read(kind@, k);
        }
        if let Ok(Some(call)) = command_call(command) {
            let learnings = call->learnings;
            assert(says_kind(kind@, learnings[0].kind));
            law_refused_call(t, call, hits, shorts, now);
            let ids = lemma_consolidate_call(
                t,
                session@,
                learnings,
                !no_purge,
                hits,
                shorts,
                now,
                0,
                x,
            );
            if is_there(t, ids[0]) {
                assert(0 <= 0 < ids.len() && is_there(t, ids[0]));
            }
            ids[0]
        } else {
            Seq::empty()
        }
    } else {
        Seq::empty()
    }
}

/// The learnings of an array: one for each item, with its title, body and tags,
/// and of its kind or a decision. There are none where an item lacks its title or
/// its body.
pub proof fn law_learnings_are_read(items: Seq<JsonView>, i: int)
    ensures
        learnings_of(items) is Err <==> exists|k: int|
            0 <= k < items.len() && ((#[trigger] items[k]).text_at("title"@) is None
                || items[k].text_at("body"@) is None),
        learnings_of(items) matches Ok(l) ==> l.len() == items.len() && (0 <= i < l.len() ==> {
            &&& items[i].text_at("title"@) == Some(l[i].title)
            &&& items[i].text_at("body"@) == Some(l[i].body)
            &&& items[i].text_at("tags"@) == l[i].tags
            &&& items[i].text_at("kind"@) is None ==> l[i].kind == MemoryKind::Decision
            &&& items[i].text_at("kind"@) matches Some(k) ==> says_kind(k, l[i].kind) || (
            l[i].kind == MemoryKind::Decision && forall|kind: MemoryKind| !says_kind(k, kind))
        }),
    decreases items.len(),
{
    if items.len() > 0 {
        let init = items.drop_last();
        let last = items.last();
        law_learnings_are_read(init, i);
        assert(items[items.len() - 1] == last);
        if learnings_of(init) is Err {
            let k = choose|k: int|
                0 <= k < init.len() && ((#[trigger] init[k]).text_at("title"@) is None
                    || init[k].text_at("body"@) is None);
            assert(items[k] == init[k]);
        }
        if exists|k: int|
            0 <= k < items.len() && ((#[trigger] items[k]).text_at("title"@) is None
                || items[k].text_at("body"@) is None) {
            let k = choose|k: int|
                0 <= k < items.len() && ((#[trigger] items[k]).text_at("title"@) is None
                    || items[k].text_at("body"@) is None);
            if k < init.len() {
                assert(init[k] == items[k]);
            }
        }
        if let Some(k) = last.text_at("kind"@) {
            assert forall|kind: MemoryKind| (kind_named(normal_form(k)) == Some(kind))
                == says_kind(k, kind) by {
                law_kind_is_read(k, kind);
            }
        }
        if 0 <= i < init.len() {
            assert(init[i] == items[i]);
        }
    }
}

/// The tool `consolidate_session`: every learning of the arguments is recorded as
/// it says, and the session's notes go unless the arguments say otherwise.
pub proof fn law_consolidate_tool(
    t: Tables,
    args: JsonView,
    hits: Result<Seq<HitView>, Seq<char>>,
    shorts: Seq<Seq<char>>,
    now: Seq<char>,
    i: int,
    x: Seq<char>,
) -> (ids: Seq<Seq<char>>)
    requires
        t.valid(),
    ensures
        ({
            let res = tool_answer(t, "consolidate_session"@, args, hits, shorts, now);
            let u = replay(t, tool_changes(t, "consolidate_session"@, args, shorts, now));
            let session = args.text_at("session_id"@);
            let items = args.array_at("learnings"@);
            let purge = args.bool_at("purge_ephemeral"@) != Some(false);
            &&& res is Err ==> u == t
            &&& session is None || items is None ==> res is Err
            &&& res is Ok ==> {
                &&& session is Some
                &&& items is Some
                &&& ids.len() == items->0.len()
                &&& 0 <= i < items->0.len() ==> {
                    let item = items->0[i];
                    &&& find(u.memories, ids[i]) matches Some(m) && item.text_at("title"@) == Some(
                        m.title,
                    ) && item.text_at("body"@) == Some(m.body) && item.text_at("tags"@) == m.tags
                        && m.session_id == session && m.status == MemoryStatus::Active && (
                    item.text_at("kind"@) is None ==> m.kind == MemoryKind::Decision) && (
                    item.text_at("kind"@) matches Some(k) ==> forall|kind: MemoryKind|
                        says_kind(k, kind) ==> m.kind == kind)
                }
                &&& was_cleared(t, u, session->0, purge, now, x)
            }
        }),
{
    lemma_tool_calls(args);
    if let Ok(CallView::Consolidate { session_id, learnings, purge_ephemeral }) = call_of(
        "consolidate_session"@,
        args,
    ) {
        let items = args.array_at("learnings"@)->0;
        law_learnings_are_read(items, i);
        if 0 <= i < items.len() {
            if let Some(k) = items[i].text_at("kind"@) {
                assert forall|kind: MemoryKind| says_kind(k, kind) implies learnings[i].kind
                    == kind by {
                    law_kind_is_read(k, kind);
                    if says_kind(k, learnings[i].kind) {
                        law_kind_is_read(k, learnings[i].kind);
                    }
                }
            }
        }
        lemma_consolidate_call(t, session_id, learnings, purge_ephemeral, hits, shorts, now, i, x)
    } else {
        Seq::empty()
    }
}

/// `memdag search`: what is printed is told of the results of the search that
/// the command asks for.
pub proof fn law_search_command(
    t: Tables,
    command: Commands,
    hits: Seq<HitView>,
    shorts: Seq<Seq<char>>,
    now: Seq<char>,
) -> (o: SearchView)
    requires
        command is Search,
    ensures
        command matches Commands::Search { query, kind, include_resolved, limit } ==> {
            &&& command_call(command) is Err <==> (kind matches Some(k) && forall|x: MemoryKind|
                !says_kind(k@, x))
            &&& command_call(command) matches Ok(c) ==> (c matches Some(call) && {
                &&& o.query == query@
                &&& o.include_resolved == include_resolved
                &&& o.limit == limit as nat
                &&& kind is None ==> o.kind is None
                &&& kind matches Some(k) ==> (o.kind matches Some(x) && says_kind(k@, x))
                &&& output_of(t, call, Ok(hits), shorts, now) == Ok::<Seq<char>, Seq<char>>(
                    crate::render::search_report(search_results(t, o, hits)) + "\n"@,
                )
            })
        },
{
    if let Commands::Search { query, kind, include_resolved, limit } = command {
        if let Some(k) = kind {
            assert forall|x: MemoryKind| (kind_named(normal_form(k@)) == Some(x)) == says_kind(
                k@,
                x,
            ) by {
                law_kind_is_read(k@, x);
            }
        }
        match command_call(command) {
            Ok(Some(call)) => {
                if let Some(x) = call->Search_options.kind {
                    assert(says_kind(kind->0@, x));
                }
                call->Search_options
            },
            _ => SearchView { query: query@, kind: None, include_resolved: false, limit: 0 },
        }
    } else {
        SearchView { query: Seq::empty(), kind: None, include_resolved: false, limit: 0 }
    }
}

/// The tool `search_memory`: what is answered is told of the results of the
/// search that the arguments ask for; without more it is for ten active memories.
pub proof fn law_search_tool(
    t: Tables,
    args: JsonView,
    hits: Seq<HitView>,
    shorts: Seq<Seq<char>>,
    now: Seq<char>,
) -> (o: SearchView)
    ensures
        args.text_at("query"@) matches Some(q) ==> o.query == q,
        args.text_at("query"@) is None ==> o.query.len() == 0,
        o.include_resolved <==> args.bool_at("include_resolved"@) == Some(true),
        args.natural_at("limit"@) is None ==> o.limit == 10,
        args.natural_at("limit"@) matches Some(n) ==> n <= u32::MAX ==> o.limit == n as nat,
        args.text_at("kind"@) is None ==> o.kind is None,
        args.text_at("kind"@) matches Some(k) ==> {
            &&& o.kind matches Some(x) ==> says_kind(k, x)
            &&& o.kind is None ==> forall|x: MemoryKind| !says_kind(k, x)
        },
        tool_answer(t, "search_memory"@, args, Ok(hits), shorts, now) == Ok::<
            Seq<char>,
            Seq<char>,
        >(crate::render::search_report(search_results(t, o, hits))),
        tool_changes(t, "search_memory"@, args, shorts, now) == Seq::<ChangeView>::empty(),
{
    lemma_tool_calls(args);
    if let Some(k) = args.text_at("kind"@) {
        assert forall|x: MemoryKind| (kind_named(normal_form(k)) == Some(x)) == says_kind(k, x) by {
            law_kind_is_read(k, x);
        }
    }
    search_call(args)->Search_options
}

/// The tool `search_vector`: what is answered is told of the nearest memories
/// that the vector index found, ten of them without more.
pub proof fn law_search_vector_tool(
    t: Tables,
    args: JsonView,
    hits: Seq<HitView>,
    shorts: Seq<Seq<char>>,
    now: Seq<char>,
) -> (limit: nat)
    ensures
        args.natural_at("limit"@) is None ==> limit == 10,
        args.natural_at("limit"@) matches Some(n) ==> n <= u32::MAX ==> limit == n as nat,
        args.array_at("embedding"@) is None ==> tool_answer(
            t,
            "search_vector"@,
            args,
            Ok(hits),
            shorts,
            now,
        ) is Err,
        args.array_at("embedding"@) matches Some(items) ==> {
            let res = tool_answer(t, "search_vector"@, args, Ok(hits), shorts, now);
            &&& res is Err <==> exists|i: int|
                0 <= i < items.len() && !((#[trigger] items[i]) is Number)
            &&& res is Ok ==> res == Ok::<Seq<char>, Seq<char>>(
                crate::render::search_report(nearest(t, hits, limit)),
            )
        },
        tool_changes(t, "search_vector"@, args, shorts, now) == Seq::<ChangeView>::empty(),
{
    lemma_tool_calls(args);
    crate::calls::limit_arg(args, 10)
}

/// Where the index fails, so does the search that needs it, with the index's
/// message; one that needs none does not.
pub proof fn law_search_without_index(
    t: Tables,
    o: SearchView,
    e: Seq<char>,
    shorts: Seq<Seq<char>>,
    now: Seq<char>,
)
    ensures
        terms(o.query).len() > 0 ==> answer_of(
            t,
            CallView::Search { options: o },
            Err(e),
            shorts,
            now,
        ) == Err::<Seq<char>, Seq<char>>(e),
        terms(o.query).len() == 0 ==> answer_of(
            t,
            CallView::Search { options: o },
            Err(e),
            shorts,
            now,
        ) is Ok,
{
}

/// `memdag get`: the memory named is printed with its neighbours.
pub proof fn law_get_command(
    t: Tables,
    command: Commands,
    hits: Result<Seq<HitView>, Seq<char>>,
    shorts: Seq<Seq<char>>,
    now: Seq<char>,
)
    ensures
        command matches Commands::Get { id } ==> (command_call(command) matches Ok(c) && c matches
            Some(call) && output_of(t, call, hits, shorts, now) is Ok && after(
            t,
            call,
            shorts,
            now,
        ) == t && (find(t.memories, id@) matches Some(m) ==> output_of(t, call, hits, shorts, now)
            == Ok::<Seq<char>, Seq<char>>(crate::cli::memory_output(m, related(t, id@))))),
{
}

/// The tool `get_memory`: the memory named is told with its neighbours.
pub proof fn law_get_tool(
    t: Tables,
    args: JsonView,
    hits: Result<Seq<HitView>, Seq<char>>,
    shorts: Seq<Seq<char>>,
    now: Seq<char>,
)
    ensures
        tool_answer(t, "get_memory"@, args, hits, shorts, now) is Err <==> args.text_at("id"@)
            is None,
        args.text_at("id"@) matches Some(id) ==> (find(t.memories, id) matches Some(m)
            ==> tool_answer(t, "get_memory"@, args, hits, shorts, now) == Ok::<
            Seq<char>,
            Seq<char>,
        >("### "@ + crate::render::details(m, related(t, id)))),
        tool_changes(t, "get_memory"@, args, shorts, now) == Seq::<ChangeView>::empty(),
{
    lemma_tool_calls(args);
}

/// `memdag list` and `memdag ready`: the list printed is the one that the command
/// asks for.
pub proof fn law_list_commands(
    t: Tables,
    command: Commands,
    hits: Result<Seq<HitView>, Seq<char>>,
    shorts: Seq<Seq<char>>,
    now: Seq<char>,
) -> (f: (Option<MemoryStatus>, Option<MemoryKind>))
    ensures
        command matches Commands::List { status, kind, limit } ==> {
            &&& command_call(command) is Err <==> (status matches Some(s) && forall|x: MemoryStatus|
                !says_status(s@, x)) || (kind matches Some(k) && forall|x: MemoryKind|
                !says_kind(k@, x))
            &&& command_call(command) matches Ok(c) ==> (c matches Some(call) && {
                &&& status is None ==> f.0 is None
                &&& status matches Some(s) ==> (f.0 matches Some(x) && says_status(s@, x))
                &&& kind is None ==> f.1 is None
                &&& kind matches Some(k) ==> (f.1 matches Some(x) && says_kind(k@, x))
                &&& output_of(t, call, hits, shorts, now) == Ok::<Seq<char>, Seq<char>>(
                    crate::cli::list_output(
                        listing(t.memories, f.0, f.1, limit as nat),
                        "No memories found.\n"@,
                    ),
                )
            })
        },
        command matches Commands::Ready { limit } ==> (command_call(command) matches Ok(c)
            && c matches Some(call) && output_of(t, call, hits, shorts, now) == Ok::<
            Seq<char>,
            Seq<char>,
        >(
            crate::cli::list_output(
                ready_listing(t, limit as nat),
                "No ready tasks or blockers found.\n"@,
            ),
        )),
{
    if let Commands::List { status, kind, limit } = command {
        if let Some(s) = status {
            assert forall|x: MemoryStatus| (status_named(normal_form(s@)) == Some(x))
                == says_status(s@, x) by {
                law_status_is_read(s@, x);
            }
        }
        if let Some(k) = kind {
            assert forall|x: MemoryKind| (kind_named(normal_form(k@)) == Some(x)) == says_kind(
                k@,
                x,
            ) by {
                law_kind_is_read(k@, x);
            }
        }
        match command_call(command) {
            Ok(Some(call)) => {
                if let Some(x) = call->status {
                    assert(says_status(status->0@, x));
                }
                if let Some(x) = call->List_kind {
                    assert(says_kind(kind->0@, x));
                }
                (call->status, call->List_kind)
            },
            _ => (None, None),
        }
    } else {
        (None, None)
    }
}

/// The tools `list_memories` and `list_ready`: the list told is the one that the
/// arguments ask for, of twenty memories without more.
pub proof fn law_list_tools(
    t: Tables,
    args: JsonView,
    hits: Result<Seq<HitView>, Seq<char>>,
    shorts: Seq<Seq<char>>,
    now: Seq<char>,
) -> (f: (Option<MemoryStatus>, Option<MemoryKind>, nat))
    ensures
        args.text_at("status"@) is None ==> f.0 is None,
        args.text_at("status"@) matches Some(s) ==> {
            &&& f.0 matches Some(x) ==> says_status(s, x)
            &&& f.0 is None ==> forall|x: MemoryStatus| !says_status(s, x)
        },
        args.text_at("kind"@) is None ==> f.1 is None,
        args.text_at("kind"@) matches Some(k) ==> {
            &&& f.1 matches Some(x) ==> says_kind(k, x)
            &&& f.1 is None ==> forall|x: MemoryKind| !says_kind(k, x)
        },
        args.natural_at("limit"@) is None ==> f.2 == 20,
        args.natural_at("limit"@) matches Some(n) ==> n <= u32::MAX ==> f.2 == n as nat,
        tool_answer(t, "list_memories"@, args, hits, shorts, now) == Ok::<Seq<char>, Seq<char>>(
            crate::render::memory_list(
                listing(t.memories, f.0, f.1, f.2),
                "No memories found."@,
            ),
        ),
        tool_answer(t, "list_ready"@, args, hits, shorts, now) == Ok::<Seq<char>, Seq<char>>(
            crate::render::memory_list(
                ready_listing(t, f.2),
                "No ready tasks or blockers found."@,
            ),
        ),
        tool_changes(t, "list_memories"@, args, shorts, now) == Seq::<ChangeView>::empty(),
        tool_changes(t, "list_ready"@, args, shorts, now) == Seq::<ChangeView>::empty(),
{
    lemma_tool_calls(args);
    if let Some(s) = args.text_at("status"@) {
        assert forall|x: MemoryStatus| (status_named(normal_form(s)) == Some(x)) == says_status(
            s,
            x,
        ) by {
            law_status_is_read(s, x);
        }
    }
    if let Some(k) = args.text_at("kind"@) {
        assert forall|x: MemoryKind| (kind_named(normal_form(k)) == Some(x)) == says_kind(k, x) by {
            law_kind_is_read(k, x);
        }
    }
    (
        crate::calls::status_arg(args),
        crate::calls::kind_arg(args),
        crate::calls::limit_arg(args, 20),
    )
}

/// The commands that do not touch the graph ask nothing of it.
pub proof fn law_other_commands(command: Commands)
    ensures
        command is Serve || command is Mcp || command is Stats ==> command_call(command) == Ok::<
            Option<CallView>,
            Seq<char>,
        >(None),
{
}

} // verus!

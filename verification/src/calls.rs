//! Tool calls: what a tool's name and its arguments ask for.

use crate::json::{item_rows, number_rows, Json, JsonView, Number, NumberView};
use crate::models::{
    default_learning_kind, invalid_kind_message, invalid_relation_message, kind_named, normal_form,
    opt_text, relation_named, status_named, LearningView, MemoryKind, MemoryStatus, RelationType,
    SessionLearning,
};
use crate::search::{SearchOptions, SearchView};
use crate::store::{learning_rows, RecordOptions, RecordView};
use crate::text::{same_text, str_text};
use vstd::prelude::*;
use vstd::string::*;

verus! {

/// A request to the memory graph.
#[derive(Debug)]
pub enum ToolCall {
    Record { options: RecordOptions },
    Link { source_id: String, target_id: String, relation_type: RelationType },
    Search { options: SearchOptions },
    SearchVector { embedding: Vec<Number>, limit: usize },
    Get { id: String },
    List { status: Option<MemoryStatus>, kind: Option<MemoryKind>, limit: usize },
    Ready { limit: usize },
    Resolve { id: String, note: Option<String> },
    Consolidate { session_id: String, learnings: Vec<SessionLearning>, purge_ephemeral: bool },
}

/// The value of a [`ToolCall`].
#[verifier::ext_equal]
pub ghost enum CallView {
    Record { options: RecordView },
    Link { source_id: Seq<char>, target_id: Seq<char>, relation_type: RelationType },
    Search { options: SearchView },
    SearchVector { embedding: Seq<NumberView>, limit: nat },
    Get { id: Seq<char> },
    List { status: Option<MemoryStatus>, kind: Option<MemoryKind>, limit: nat },
    Ready { limit: nat },
    Resolve { id: Seq<char>, note: Option<Seq<char>> },
    Consolidate { session_id: Seq<char>, learnings: Seq<LearningView>, purge_ephemeral: bool },
}

impl View for ToolCall {
    type V = CallView;

    open spec fn view(&self) -> CallView {
        match *self {
            ToolCall::Record { options } => CallView::Record { options: options@ },
            ToolCall::Link { source_id, target_id, relation_type } => CallView::Link {
                source_id: source_id@,
                target_id: target_id@,
                relation_type: relation_type,
            },
            ToolCall::Search { options } => CallView::Search { options: options@ },
            ToolCall::SearchVector { embedding, limit } => CallView::SearchVector {
                embedding: number_rows(embedding@),
                limit: limit as nat,
            },
            ToolCall::Get { id } => CallView::Get { id: id@ },
            ToolCall::List { status, kind, limit } => CallView::List {
                status: status,
                kind: kind,
                limit: limit as nat,
            },
            ToolCall::Ready { limit } => CallView::Ready { limit: limit as nat },
            ToolCall::Resolve { id, note } => CallView::Resolve { id: id@, note: opt_text(note) },
            ToolCall::Consolidate { session_id, learnings, purge_ephemeral } =>
                CallView::Consolidate {
                session_id: session_id@,
                learnings: learning_rows(learnings@),
                purge_ephemeral: purge_ephemeral,
            },
        }
    }
}

/// What became of reading a call.
pub open spec fn read_result(res: Result<ToolCall, String>) -> Result<CallView, Seq<char>> {
    match res {
        Ok(call) => Ok(call@),
        Err(message) => Err(message@),
    }
}

/// The kind that an argument names; none where it names no kind.
pub open spec fn kind_arg(args: JsonView) -> Option<MemoryKind> {
    match args.text_at("kind"@) {
        Some(k) => kind_named(normal_form(k)),
        None => None,
    }
}

/// The state that an argument names; none where it names no state.
pub open spec fn status_arg(args: JsonView) -> Option<MemoryStatus> {
    match args.text_at("status"@) {
        Some(s) => status_named(normal_form(s)),
        None => None,
    }
}

/// The limit that an argument gives.
pub open spec fn limit_arg(args: JsonView, default: usize) -> nat {
    match args.natural_at("limit"@) {
        Some(n) => (n as usize) as nat,
        None => default as nat,
    }
}

/// A truth value that an argument gives.
pub open spec fn flag_arg(args: JsonView, key: Seq<char>, default: bool) -> bool {
    match args.bool_at(key) {
        Some(b) => b,
        None => default,
    }
}

/// The arguments of `record_memory`.
pub open spec fn record_call(args: JsonView) -> Result<CallView, Seq<char>> {
    match args.text_at("kind"@) {
        None => Err("Missing 'kind' parameter"@),
        Some(k) => match kind_named(normal_form(k)) {
            None => Err(invalid_kind_message(normal_form(k))),
            Some(kind) => match args.text_at("title"@) {
                None => Err("Missing 'title' parameter"@),
                Some(title) => match args.text_at("body"@) {
                    None => Err("Missing 'body' parameter"@),
                    Some(body) => Ok(
                        CallView::Record {
                            options: RecordView {
                                id: args.text_at("id"@),
                                kind: kind,
                                title: title,
                                body: body,
                                tags: args.text_at("tags"@),
                                supersedes_id: args.text_at("supersedes_id"@),
                                session_id: args.text_at("session_id"@),
                                embedding: None,
                            },
                        },
                    ),
                },
            },
        },
    }
}

/// The arguments of `link_entities`.
pub open spec fn link_call(args: JsonView) -> Result<CallView, Seq<char>> {
    match args.text_at("source_id"@) {
        None => Err("Missing 'source_id'"@),
        Some(source) => match args.text_at("target_id"@) {
            None => Err("Missing 'target_id'"@),
            Some(target) => match args.text_at("relation_type"@) {
                None => Err("Missing 'relation_type'"@),
                Some(r) => match relation_named(normal_form(r)) {
                    None => Err(invalid_relation_message(normal_form(r))),
                    Some(relation) => Ok(
                        CallView::Link {
                            source_id: source,
                            target_id: target,
                            relation_type: relation,
                        },
                    ),
                },
            },
        },
    }
}

/// The arguments of `search_memory`.
pub open spec fn search_call(args: JsonView) -> CallView {
    CallView::Search {
        options: SearchView {
            query: match args.text_at("query"@) {
                Some(q) => q,
                None => Seq::empty(),
            },
            kind: kind_arg(args),
            include_resolved: flag_arg(args, "include_resolved"@, false),
            limit: limit_arg(args, 10),
        },
    }
}

/// The numbers of an array that holds nothing else.
pub open spec fn numbers_of(items: Seq<JsonView>) -> Option<Seq<NumberView>> {
    if forall|i: int| 0 <= i < items.len() ==> (#[trigger] items[i]) is Number {
        Some(items.map_values(|j: JsonView| j->Number_0))
    } else {
        None
    }
}

/// The arguments of `search_vector`.
pub open spec fn search_vector_call(args: JsonView) -> Result<CallView, Seq<char>> {
    match args.array_at("embedding"@) {
        None => Err("Missing 'embedding' array"@),
        Some(items) => match numbers_of(items) {
            None => Err("'embedding' must hold numbers only"@),
            Some(embedding) => Ok(
                CallView::SearchVector { embedding: embedding, limit: limit_arg(args, 10) },
            ),
        },
    }
}

/// The arguments of a call that names a memory.
pub open spec fn id_arg(args: JsonView) -> Result<Seq<char>, Seq<char>> {
    match args.text_at("id"@) {
        None => Err("Missing 'id' parameter"@),
        Some(id) => Ok(id),
    }
}

/// One learning.
pub open spec fn learning_of(item: JsonView) -> Result<LearningView, Seq<char>> {
    match item.text_at("title"@) {
        None => Err("Learning missing 'title'"@),
        Some(title) => match item.text_at("body"@) {
            None => Err("Learning missing 'body'"@),
            Some(body) => Ok(
                LearningView {
                    title: title,
                    body: body,
                    tags: item.text_at("tags"@),
                    kind: match kind_arg(item) {
                        Some(kind) => kind,
                        None => MemoryKind::Decision,
                    },
                },
            ),
        },
    }
}

/// The learnings, or what is wrong with the first that is none.
pub open spec fn learnings_of(items: Seq<JsonView>) -> Result<Seq<LearningView>, Seq<char>>
    decreases items.len(),
{
    if items.len() == 0 {
        Ok(Seq::empty())
    } else {
        match learnings_of(items.drop_last()) {
            Err(e) => Err(e),
            Ok(learnings) => match learning_of(items.last()) {
                Err(e) => Err(e),
                Ok(learning) => Ok(learnings.push(learning)),
            },
        }
    }
}

/// The arguments of `consolidate_session`.
pub open spec fn consolidate_call(args: JsonView) -> Result<CallView, Seq<char>> {
    match args.text_at("session_id"@) {
        None => Err("Missing 'session_id'"@),
        Some(session) => match args.array_at("learnings"@) {
            None => Err("Missing 'learnings' array"@),
            Some(items) => match learnings_of(items) {
                Err(e) => Err(e),
                Ok(learnings) => Ok(
                    CallView::Consolidate {
                        session_id: session,
                        learnings: learnings,
                        purge_ephemeral: flag_arg(args, "purge_ephemeral"@, true),
                    },
                ),
            },
        },
    }
}

/// What the tool `name` is asked for by its arguments.
pub open spec fn call_of(name: Seq<char>, args: JsonView) -> Result<CallView, Seq<char>> {
    if name == "record_memory"@ {
        record_call(args)
    } else if name == "link_entities"@ {
        link_call(args)
    } else if name == "search_memory"@ {
        Ok(search_call(args))
    } else if name == "search_vector"@ {
        search_vector_call(args)
    } else if name == "get_memory"@ {
        match id_arg(args) {
            Ok(id) => Ok(CallView::Get { id: id }),
            Err(e) => Err(e),
        }
    } else if name == "list_memories"@ {
        Ok(
            CallView::List {
                status: status_arg(args),
                kind: kind_arg(args),
                limit: limit_arg(args, 20),
            },
        )
    } else if name == "list_ready"@ {
        Ok(CallView::Ready { limit: limit_arg(args, 20) })
    } else if name == "resolve_memory"@ {
        match id_arg(args) {
            Ok(id) => Ok(CallView::Resolve { id: id, note: args.text_at("note"@) }),
            Err(e) => Err(e),
        }
    } else if name == "consolidate_session"@ {
        consolidate_call(args)
    } else {
        Err("Unknown tool: '"@ + name + "'"@)
    }
}

/// A string of its own for an optional slice.
pub fn owned(s: Option<&str>) -> (res: Option<String>)
    ensures
        opt_text(res) == str_text(s),
{
    match s {
        Some(s) => Some(s.to_owned()),
        None => None,
    }
}

/// The kind that an argument names.
fn read_kind(args: &Json) -> (res: Option<MemoryKind>)
    ensures
        res == kind_arg(args@),
{
    match args.text_at("kind") {
        Some(k) => match MemoryKind::from_str(k) {
            Ok(kind) => Some(kind),
            Err(_) => None,
        },
        None => None,
    }
}

/// The state that an argument names.
fn read_status(args: &Json) -> (res: Option<MemoryStatus>)
    ensures
        res == status_arg(args@),
{
    match args.text_at("status") {
        Some(s) => match MemoryStatus::from_str(s) {
            Ok(status) => Some(status),
            Err(_) => None,
        },
        None => None,
    }
}

/// The limit that an argument gives.
fn read_limit(args: &Json, default: usize) -> (res: usize)
    ensures
        res == limit_arg(args@, default),
{
    match args.natural_at("limit") {
        Some(n) => n as usize,
        None => default,
    }
}

/// A truth value that an argument gives.
fn read_flag(args: &Json, key: &str, default: bool) -> (res: bool)
    ensures
        res == flag_arg(args@, key@, default),
{
    match args.bool_at(key) {
        Some(b) => b,
        None => default,
    }
}

/// The arguments of `record_memory`.
fn read_record(args: &Json) -> (res: Result<ToolCall, String>)
    ensures
        read_result(res) == record_call(args@),
{
    let kind = match args.text_at("kind") {
        Some(k) => match MemoryKind::from_str(k) {
            Ok(kind) => kind,
            Err(message) => {
                return Err(message);
            },
        },
        None => {
            return Err("Missing 'kind' parameter".to_owned());
        },
    };
    let title = match args.text_at("title") {
        Some(title) => title.to_owned(),
        None => {
            return Err("Missing 'title' parameter".to_owned());
        },
    };
    let body = match args.text_at("body") {
        Some(body) => body.to_owned(),
        None => {
            return Err("Missing 'body' parameter".to_owned());
        },
    };
    Ok(
        ToolCall::Record {
            options: RecordOptions {
                id: owned(args.text_at("id")),
                kind,
                title,
                body,
                tags: owned(args.text_at("tags")),
                supersedes_id: owned(args.text_at("supersedes_id")),
                session_id: owned(args.text_at("session_id")),
                embedding: None,
            },
        },
    )
}

/// The arguments of `link_entities`.
fn read_link(args: &Json) -> (res: Result<ToolCall, String>)
    ensures
        read_result(res) == link_call(args@),
{
    let source_id = match args.text_at("source_id") {
        Some(id) => id.to_owned(),
        None => {
            return Err("Missing 'source_id'".to_owned());
        },
    };
    let target_id = match args.text_at("target_id") {
        Some(id) => id.to_owned(),
        None => {
            return Err("Missing 'target_id'".to_owned());
        },
    };
    let relation_type = match args.text_at("relation_type") {
        Some(r) => match RelationType::from_str(r) {
            Ok(relation_type) => relation_type,
            Err(message) => {
                return Err(message);
            },
        },
        None => {
            return Err("Missing 'relation_type'".to_owned());
        },
    };
    Ok(ToolCall::Link { source_id, target_id, relation_type })
}

/// The arguments of `search_memory`.
fn read_search(args: &Json) -> (res: ToolCall)
    ensures
        res@ == search_call(args@),
{
    let query = match args.text_at("query") {
        Some(q) => q.to_owned(),
        None => String::new(),
    };
    ToolCall::Search {
        options: SearchOptions {
            query,
            kind: read_kind(args),
            include_resolved: read_flag(args, "include_resolved", false),
            limit: read_limit(args, 10),
        },
    }
}

/// The arguments of `search_vector`.
fn read_search_vector(args: &Json) -> (res: Result<ToolCall, String>)
    ensures
        read_result(res) == search_vector_call(args@),
{
    let items = match args.array_at("embedding") {
        Some(items) => items,
        None => {
            return Err("Missing 'embedding' array".to_owned());
        },
    };
    let ghost rows = item_rows(items@);
    let ghost number = |j: JsonView| j->Number_0;
    let mut embedding: Vec<Number> = Vec::new();
    let mut i: usize = 0;
    proof {
        assert(number_rows(embedding@) =~= rows.take(0).map_values(number));
    }
    while i < items.len()
        invariant
            i <= items@.len(),
            rows == item_rows(items@),
            args@.array_at("embedding"@) == Some(rows),
            number == (|j: JsonView| j->Number_0),
            forall|k: int| 0 <= k < i ==> (#[trigger] rows[k]) is Number,
            number_rows(embedding@) == rows.take(i as int).map_values(number),
        decreases items@.len() - i,
    {
        proof {
            assert(rows[i as int] == items@[i as int]@);
        }
        match &items[i] {
            Json::Number(n) => {
                let ghost before = number_rows(embedding@);
                embedding.push(n.clone());
                proof {
                    assert(number_rows(embedding@) =~= before.push(number(rows[i as int])));
                    assert(rows.take(i + 1).map_values(number) =~= rows.take(i as int).map_values(
                        number,
                    ).push(number(rows[i as int])));
                }
            },
            _ => {
                proof {
                    assert(!(rows[i as int] is Number));
                }
                return Err("'embedding' must hold numbers only".to_owned());
            },
        }
        i += 1;
    }
    proof {
        assert(rows.take(i as int) =~= rows);
    }
    Ok(ToolCall::SearchVector { embedding, limit: read_limit(args, 10) })
}

/// The argument that names a memory.
fn read_id(args: &Json) -> (res: Result<String, String>)
    ensures
        match id_arg(args@) {
            Ok(id) => res is Ok && res->Ok_0@ == id,
            Err(e) => res is Err && res->Err_0@ == e,
        },
{
    match args.text_at("id") {
        Some(id) => Ok(id.to_owned()),
        None => Err("Missing 'id' parameter".to_owned()),
    }
}

/// One learning.
fn read_learning(item: &Json) -> (res: Result<SessionLearning, String>)
    ensures
        match learning_of(item@) {
            Ok(learning) => res is Ok && res->Ok_0@ == learning,
            Err(e) => res is Err && res->Err_0@ == e,
        },
{
    let title = match item.text_at("title") {
        Some(title) => title.to_owned(),
        None => {
            return Err("Learning missing 'title'".to_owned());
        },
    };
    let body = match item.text_at("body") {
        Some(body) => body.to_owned(),
        None => {
            return Err("Learning missing 'body'".to_owned());
        },
    };
    let tags = owned(item.text_at("tags"));
    let kind = match read_kind(item) {
        Some(kind) => kind,
        None => default_learning_kind(),
    };
    Ok(SessionLearning { title, body, tags, kind })
}

/// The first item that is no learning decides.
proof fn lemma_learnings_error(items: Seq<JsonView>, i: int)
    requires
        0 <= i <= items.len(),
        learnings_of(items.take(i)) is Err,
    ensures
        learnings_of(items) == learnings_of(items.take(i)),
    decreases items.len() - i,
{
    if i == items.len() {
        assert(items.take(i) =~= items);
    } else {
        assert(items.take(i + 1).drop_last() =~= items.take(i));
        lemma_learnings_error(items, i + 1);
    }
}

/// The learnings, or what is wrong with the first that is none.
fn read_learnings(items: &Vec<Json>) -> (res: Result<Vec<SessionLearning>, String>)
    ensures
        match learnings_of(item_rows(items@)) {
            Ok(learnings) => res is Ok && learning_rows(res->Ok_0@) == learnings,
            Err(e) => res is Err && res->Err_0@ == e,
        },
{
    let ghost rows = item_rows(items@);
    let mut learnings: Vec<SessionLearning> = Vec::new();
    let mut i: usize = 0;
    proof {
        assert(learning_rows(learnings@) =~= Seq::empty());
    }
    while i < items.len()
        invariant
            i <= items@.len(),
            rows == item_rows(items@),
            learnings_of(rows.take(i as int)) == Ok::<Seq<LearningView>, Seq<char>>(
                learning_rows(learnings@),
            ),
        decreases items@.len() - i,
    {
        proof {
            assert(rows[i as int] == items@[i as int]@);
            assert(rows.take(i + 1).drop_last() =~= rows.take(i as int));
        }
        match read_learning(&items[i]) {
            Ok(learning) => {
                let ghost before = learning_rows(learnings@);
                let ghost row = learning@;
                learnings.push(learning);
                proof {
                    assert(learning_rows(learnings@) =~= before.push(row));
                }
            },
            Err(message) => {
                proof {
                    lemma_learnings_error(rows, i + 1);
                }
                return Err(message);
            },
        }
        i += 1;
    }
    proof {
        assert(rows.take(i as int) =~= rows);
    }
    Ok(learnings)
}

/// The arguments of `consolidate_session`.
fn read_consolidate(args: &Json) -> (res: Result<ToolCall, String>)
    ensures
        read_result(res) == consolidate_call(args@),
{
    let session_id = match args.text_at("session_id") {
        Some(id) => id.to_owned(),
        None => {
            return Err("Missing 'session_id'".to_owned());
        },
    };
    let items = match args.array_at("learnings") {
        Some(items) => items,
        None => {
            return Err("Missing 'learnings' array".to_owned());
        },
    };
    match read_learnings(items) {
        Ok(learnings) => Ok(
            ToolCall::Consolidate {
                session_id,
                learnings,
                purge_ephemeral: read_flag(args, "purge_ephemeral", true),
            },
        ),
        Err(message) => Err(message),
    }
}

/// What the tool `name` is asked for by its arguments.
pub fn read_call(name: &str, args: &Json) -> (res: Result<ToolCall, String>)
    ensures
        read_result(res) == call_of(name@, args@),
{
    if same_text(name, "record_memory") {
        read_record(args)
    } else if same_text(name, "link_entities") {
        read_link(args)
    } else if same_text(name, "search_memory") {
        Ok(read_search(args))
    } else if same_text(name, "search_vector") {
        read_search_vector(args)
    } else if same_text(name, "get_memory") {
        match read_id(args) {
            Ok(id) => Ok(ToolCall::Get { id }),
            Err(message) => Err(message),
        }
    } else if same_text(name, "list_memories") {
        Ok(
            ToolCall::List {
                status: read_status(args),
                kind: read_kind(args),
                limit: read_limit(args, 20),
            },
        )
    } else if same_text(name, "list_ready") {
        Ok(ToolCall::Ready { limit: read_limit(args, 20) })
    } else if same_text(name, "resolve_memory") {
        match read_id(args) {
            Ok(id) => Ok(ToolCall::Resolve { id, note: owned(args.text_at("note")) }),
            Err(message) => Err(message),
        }
    } else if same_text(name, "consolidate_session") {
        read_consolidate(args)
    } else {
        let mut message = "Unknown tool: '".to_owned();
        message.append(name);
        message.append("'");
        Err(message)
    }
}

} // verus!

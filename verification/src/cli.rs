//! The command line: what a command asks for and what it prints.

use crate::calls::{CallView, ToolCall};
use crate::mcp::VERSION;
use crate::models::{
    invalid_kind_message, invalid_relation_message, invalid_status_message, kind_named,
    normal_form, opt_text, relation_named, status_named, DatabaseStats, LearningView, Memory,
    MemoryKind, MemoryStatus, MemoryView, RelatedEntity, RelatedView, RelationType,
    SessionLearning,
};
use crate::plans::{
    consolidate_plan, learning_ids, link_plan, record_plan, recorded_row, resolve_plan,
    resolved_row,
};
use crate::queries::{listing, ready_listing, related, related_rows};
use crate::render::{
    format_ids, format_relations, format_search_results_for_llm, quoted_list, relation_lines,
    search_report,
};
use crate::rows::memory_rows;
use crate::search::{
    hit_rows, index_query, nearest, sanitized, search_results, terms, Hit, HitView, SearchOptions,
    SearchView,
};
use crate::store::{
    committed, consolidation_summary, learning_rows, lemma_refused_committed, make_id,
    named_counts, ConsolidationResult, ConsolidationView, MemoryStore, RecordOptions, RecordView,
};
use crate::tables::{find, Tables};
use crate::text::{
    concat, decimal, lemma_concat_push, push_decimal, push_signed, signed_decimal, texts,
};
use crate::tools::{
    answer_value, changes_of, hits_value, ids_needed, record_id, resolved_text,
    unknown_memory_text,
};
use vstd::prelude::*;
use vstd::string::*;

verus! {

/// The arguments of the program.
#[derive(Debug)]
pub struct Cli {
    /// The database file, where one is named.
    pub db: Option<String>,
    pub command: Option<Commands>,
}

/// A command.
#[derive(Debug)]
pub enum Commands {
    /// Serves the Model Context Protocol on standard input and output.
    Serve,
    /// Registers the server in a client's configuration or takes it out.
    Mcp { action: McpAction },
    /// Records a memory.
    Record {
        kind: String,
        title: String,
        body: String,
        tags: Option<String>,
        supersedes: Option<String>,
        session: Option<String>,
        id: Option<String>,
    },
    /// Links two memories.
    Link { source_id: String, target_id: String, relation: String },
    /// Searches the memories.
    Search { query: String, kind: Option<String>, include_resolved: bool, limit: usize },
    /// Shows a memory and its neighbours.
    Get { id: String },
    /// Lists memories.
    List { status: Option<String>, kind: Option<String>, limit: usize },
    /// Lists the work that can be taken up.
    Ready { limit: usize },
    /// Consolidates a session.
    Consolidate {
        session: String,
        title: String,
        body: String,
        kind: String,
        tags: Option<String>,
        no_purge: bool,
    },
    /// Marks a memory as resolved.
    Resolve { id: String, note: Option<String> },
    /// Shows how much the database holds.
    Stats,
}

/// What is done to a client's configuration.
#[derive(Debug)]
pub enum McpAction {
    Install { global: bool, path: Option<String>, key: String },
    Uninstall { global: bool, path: Option<String>, key: String },
}

/// What the program does first.
#[derive(Debug, Clone, Copy, PartialEq, Eq, Structural)]
pub enum Startup {
    /// Changes a client's configuration, without the database.
    Configure,
    /// Serves requests.
    Serve,
    /// Tells how it is used.
    Greet,
    /// Runs a command on the database.
    Run,
}

/// What the program does first: without a command it serves, unless a person
/// sits at the terminal.
pub fn startup(command: &Option<Commands>, is_terminal: bool) -> (res: Startup)
    ensures
        res == match command {
            Some(Commands::Mcp { action }) => Startup::Configure,
            Some(Commands::Serve) => Startup::Serve,
            Some(_) => Startup::Run,
            None => if is_terminal {
                Startup::Greet
            } else {
                Startup::Serve
            },
        },
{
    match command {
        Some(Commands::Mcp { action }) => Startup::Configure,
        Some(Commands::Serve) => Startup::Serve,
        Some(_) => Startup::Run,
        None => if is_terminal {
            Startup::Greet
        } else {
            Startup::Serve
        },
    }
}

/// What a person at the terminal is told who gives no command.
pub fn greeting() -> (res: String)
    ensures
        res@ == "memdag v"@ + VERSION@
            + " - Relational DAG & FTS5 memory engine with sqlite-vec\nRun 'memdag --help' for CLI usage or 'memdag serve' to start the stdio MCP server.\n"@,
{
    let mut res = "memdag v".to_owned();
    res.append(VERSION);
    res.append(
        " - Relational DAG & FTS5 memory engine with sqlite-vec\nRun 'memdag --help' for CLI usage or 'memdag serve' to start the stdio MCP server.\n",
    );
    res
}

/// The kind that an option names, if it is given.
pub open spec fn kind_option(kind: Option<Seq<char>>) -> Result<Option<MemoryKind>, Seq<char>> {
    match kind {
        None => Ok(None),
        Some(k) => match kind_named(normal_form(k)) {
            Some(kind) => Ok(Some(kind)),
            None => Err(invalid_kind_message(normal_form(k))),
        },
    }
}

/// The state that an option names, if it is given.
pub open spec fn status_option(status: Option<Seq<char>>) -> Result<
    Option<MemoryStatus>,
    Seq<char>,
> {
    match status {
        None => Ok(None),
        Some(s) => match status_named(normal_form(s)) {
            Some(status) => Ok(Some(status)),
            None => Err(invalid_status_message(normal_form(s))),
        },
    }
}

/// What a command asks of the graph: a call, nothing, or why it is refused.
pub open spec fn command_call(command: Commands) -> Result<Option<CallView>, Seq<char>> {
    match command {
        Commands::Record { kind, title, body, tags, supersedes, session, id } => match kind_named(
            normal_form(kind@),
        ) {
            None => Err(invalid_kind_message(normal_form(kind@))),
            Some(k) => Ok(
                Some(
                    CallView::Record {
                        options: RecordView {
                            id: opt_text(id),
                            kind: k,
                            title: title@,
                            body: body@,
                            tags: opt_text(tags),
                            supersedes_id: opt_text(supersedes),
                            session_id: opt_text(session),
                            embedding: None,
                        },
                    },
                ),
            ),
        },
        Commands::Link { source_id, target_id, relation } => match relation_named(
            normal_form(relation@),
        ) {
            None => Err(invalid_relation_message(normal_form(relation@))),
            Some(relation_type) => Ok(
                Some(
                    CallView::Link {
                        source_id: source_id@,
                        target_id: target_id@,
                        relation_type: relation_type,
                    },
                ),
            ),
        },
        Commands::Search { query, kind, include_resolved, limit } => match kind_option(
            opt_text(kind),
        ) {
            Err(e) => Err(e),
            Ok(k) => Ok(
                Some(
                    CallView::Search {
                        options: SearchView {
                            query: query@,
                            kind: k,
                            include_resolved: include_resolved,
                            limit: limit as nat,
                        },
                    },
                ),
            ),
        },
        Commands::Get { id } => Ok(Some(CallView::Get { id: id@ })),
        Commands::List { status, kind, limit } => match status_option(opt_text(status)) {
            Err(e) => Err(e),
            Ok(s) => match kind_option(opt_text(kind)) {
                Err(e) => Err(e),
                Ok(k) => Ok(Some(CallView::List { status: s, kind: k, limit: limit as nat })),
            },
        },
        Commands::Ready { limit } => Ok(Some(CallView::Ready { limit: limit as nat })),
        Commands::Consolidate { session, title, body, kind, tags, no_purge } => match kind_named(
            normal_form(kind@),
        ) {
            None => Err(invalid_kind_message(normal_form(kind@))),
            Some(k) => Ok(
                Some(
                    CallView::Consolidate {
                        session_id: session@,
                        learnings: seq![
                            LearningView {
                                title: title@,
                                body: body@,
                                tags: opt_text(tags),
                                kind: k,
                            },
                        ],
                        purge_ephemeral: !no_purge,
                    },
                ),
            ),
        },
        Commands::Resolve { id, note } => Ok(
            Some(CallView::Resolve { id: id@, note: opt_text(note) }),
        ),
        Commands::Serve => Ok(None),
        Commands::Mcp { action } => Ok(None),
        Commands::Stats => Ok(None),
    }
}

/// The kind that an option names, if it is given.
fn read_kind_option(kind: Option<String>) -> (res: Result<Option<MemoryKind>, String>)
    ensures
        match kind_option(opt_text(kind)) {
            Ok(k) => res is Ok && res->Ok_0 == k,
            Err(e) => res is Err && res->Err_0@ == e,
        },
{
    match kind {
        None => Ok(None),
        Some(k) => match MemoryKind::from_str(k.as_str()) {
            Ok(kind) => Ok(Some(kind)),
            Err(message) => Err(message),
        },
    }
}

/// The state that an option names, if it is given.
fn read_status_option(status: Option<String>) -> (res: Result<Option<MemoryStatus>, String>)
    ensures
        match status_option(opt_text(status)) {
            Ok(s) => res is Ok && res->Ok_0 == s,
            Err(e) => res is Err && res->Err_0@ == e,
        },
{
    match status {
        None => Ok(None),
        Some(s) => match MemoryStatus::from_str(s.as_str()) {
            Ok(status) => Ok(Some(status)),
            Err(message) => Err(message),
        },
    }
}

/// The value of what a command asks for.
pub open spec fn command_value(res: Result<Option<ToolCall>, String>) -> Result<
    Option<CallView>,
    Seq<char>,
> {
    match res {
        Ok(Some(call)) => Ok(Some(call@)),
        Ok(None) => Ok(None),
        Err(message) => Err(message@),
    }
}

/// What a command asks of the graph: a call, nothing, or why it is refused.
pub fn read_command(command: Commands) -> (res: Result<Option<ToolCall>, String>)
    ensures
        command_value(res) == command_call(command),
        res matches Ok(Some(ToolCall::Record { options })) ==> (command matches Commands::Record {
            kind,
            title,
            body,
            tags,
            supersedes,
            session,
            id,
        } && options.title == title && options.body == body && options.tags == tags
            && options.supersedes_id == supersedes && options.session_id == session && options.id
            == id && normal_form(kind@) == options.kind.text()),
        res matches Ok(Some(ToolCall::Link { source_id: s, target_id: t, relation_type })) ==> (
        command matches Commands::Link { source_id, target_id, relation } && s == source_id && t
            == target_id),
        res matches Ok(Some(ToolCall::Search { options })) ==> (command matches Commands::Search {
            query,
            kind,
            include_resolved,
            limit,
        } && options.query == query && options.include_resolved == include_resolved
            && options.limit == limit && (options.kind is Some <==> kind is Some)),
        res matches Ok(Some(ToolCall::Get { id: i })) ==> (command matches Commands::Get { id }
            && i == id),
        res matches Ok(Some(ToolCall::List { status: s, kind: k, limit: n })) ==> (command matches
            Commands::List { status, kind, limit } && n == limit && (s is Some <==> status is Some)
            && (k is Some <==> kind is Some)),
        res matches Ok(Some(ToolCall::Ready { limit: n })) ==> (command matches Commands::Ready {
            limit,
        } && n == limit),
        res matches Ok(Some(ToolCall::Resolve { id: i, note: n })) ==> (command matches
            Commands::Resolve { id, note } && i == id && n == note),
{
    match command {
        Commands::Record { kind, title, body, tags, supersedes, session, id } => {
            match MemoryKind::from_str(kind.as_str()) {
                Err(message) => Err(message),
                Ok(kind) => Ok(
                    Some(
                        ToolCall::Record {
                            options: RecordOptions {
                                id,
                                kind,
                                title,
                                body,
                                tags,
                                supersedes_id: supersedes,
                                session_id: session,
                                embedding: None,
                            },
                        },
                    ),
                ),
            }
        },
        Commands::Link { source_id, target_id, relation } => {
            match RelationType::from_str(relation.as_str()) {
                Err(message) => Err(message),
                Ok(relation_type) => Ok(
                    Some(ToolCall::Link { source_id, target_id, relation_type }),
                ),
            }
        },
        Commands::Search { query, kind, include_resolved, limit } => match read_kind_option(kind) {
            Err(message) => Err(message),
            Ok(kind) => Ok(
                Some(
                    ToolCall::Search {
                        options: SearchOptions { query, kind, include_resolved, limit },
                    },
                ),
            ),
        },
        Commands::Get { id } => Ok(Some(ToolCall::Get { id })),
        Commands::List { status, kind, limit } => match read_status_option(status) {
            Err(message) => Err(message),
            Ok(status) => match read_kind_option(kind) {
                Err(message) => Err(message),
                Ok(kind) => Ok(Some(ToolCall::List { status, kind, limit })),
            },
        },
        Commands::Ready { limit } => Ok(Some(ToolCall::Ready { limit })),
        Commands::Consolidate { session, title, body, kind, tags, no_purge } => {
            match MemoryKind::from_str(kind.as_str()) {
                Err(message) => Err(message),
                Ok(kind) => {
                    let mut learnings: Vec<SessionLearning> = Vec::new();
                    learnings.push(SessionLearning { title, body, tags, kind });
                    proof {
                        assert(learning_rows(learnings@) =~= seq![learnings@[0]@]);
                    }
                    Ok(
                        Some(
                            ToolCall::Consolidate {
                                session_id: session,
                                learnings,
                                purge_ephemeral: !no_purge,
                            },
                        ),
                    )
                },
            }
        },
        Commands::Resolve { id, note } => Ok(Some(ToolCall::Resolve { id, note })),
        Commands::Serve => Ok(None),
        Commands::Mcp { action } => Ok(None),
        Commands::Stats => Ok(None),
    }
}

/// The query for the text index that a call needs, if it needs one.
pub fn text_lookup(call: &ToolCall) -> (res: Option<String>)
    ensures
        match call@ {
            CallView::Search { options } => match res {
                Some(q) => terms(options.query).len() > 0 && q@ == sanitized(options.query),
                None => terms(options.query).len() == 0,
            },
            _ => res is None,
        },
{
    match call {
        ToolCall::Search { options } => index_query(options),
        _ => None,
    }
}

/// A line with a label, where there is something to put on it.
pub open spec fn labelled(label: Seq<char>, value: Option<Seq<char>>) -> Seq<char> {
    match value {
        Some(v) => label + v + "\n"@,
        None => Seq::empty(),
    }
}

/// A text filled up with blanks to a width.
pub open spec fn padded(s: Seq<char>, width: nat) -> Seq<char> {
    if s.len() >= width {
        s
    } else {
        s + Seq::new((width - s.len()) as nat, |i: int| ' ')
    }
}

/// What is printed of a memory that was recorded.
pub open spec fn recorded_output(m: MemoryView) -> Seq<char> {
    "Recorded memory: ["@ + m.id + "] "@ + m.title + "\n  Kind:   "@ + m.kind.text()
        + "\n  Status: "@ + m.status.text() + "\n"@ + labelled("  Tags:   "@, m.tags)
}

/// What is printed of a memory and its neighbours.
pub open spec fn memory_output(m: MemoryView, related: Seq<RelatedView>) -> Seq<char> {
    let neighbours = if related.len() == 0 {
        Seq::empty()
    } else {
        "\nRelations:\n"@ + relation_lines(related)
    };
    "ID:          "@ + m.id + "\nTitle:       "@ + m.title + "\nKind:        "@ + m.kind.text()
        + "\nStatus:      "@ + m.status.text() + "\n"@ + labelled("Tags:        "@, m.tags)
        + labelled("Session:     "@, m.session_id) + "Created At:  "@ + m.created_at
        + "\nUpdated At:  "@ + m.updated_at + "\n\nBody:\n"@ + m.body + "\n"@ + neighbours
}

/// A memory on a line of a list.
pub open spec fn list_line(m: MemoryView) -> Seq<char> {
    "["@ + m.id + "] "@ + padded("("@ + m.kind.text() + ")"@, 9) + " "@ + m.status.text() + " "@
        + m.title + "\n"@
}

/// What is printed of a list.
pub open spec fn list_output(memories: Seq<MemoryView>, none: Seq<char>) -> Seq<char> {
    if memories.len() == 0 {
        none
    } else {
        concat(memories.map_values(|m: MemoryView| list_line(m)))
    }
}

/// What is printed of a session that was consolidated.
pub open spec fn consolidated_output(c: ConsolidationView) -> Seq<char> {
    "Consolidated session '"@ + c.session_id + "':\n  Learnings recorded:  "@ + decimal(
        c.learnings_recorded,
    ) + "\n  Ephemeral purged:    "@ + decimal(c.ephemeral_purged) + "\n  Ephemeral archived:  "@
        + decimal(c.ephemeral_archived) + "\n  Recorded IDs:        "@ + quoted_list(
        c.recorded_ids,
    ) + "\n"@
}

/// What a call prints, or why it is refused.
pub open spec fn output_of(
    t: Tables,
    call: CallView,
    hits: Result<Seq<HitView>, Seq<char>>,
    shorts: Seq<Seq<char>>,
    now: Seq<char>,
) -> Result<Seq<char>, Seq<char>> {
    match call {
        CallView::Record { options } => {
            let id = record_id(options, shorts);
            match record_plan(t, options, id, now) {
                Ok(_) => Ok(recorded_output(recorded_row(options, id, now))),
                Err(e) => Err(e.text()),
            }
        },
        CallView::Link { source_id, target_id, relation_type } => match link_plan(
            t,
            source_id,
            target_id,
            relation_type,
            now,
        ) {
            Ok(_) => Ok(
                "Linked: ["@ + source_id + "] --("@ + relation_type.text() + ")--> ["@ + target_id
                    + "]\n"@,
            ),
            Err(e) => Err(e.text()),
        },
        CallView::Search { options } => if terms(options.query).len() == 0 {
            Ok(search_report(search_results(t, options, Seq::empty())) + "\n"@)
        } else {
            match hits {
                Ok(found) => Ok(search_report(search_results(t, options, found)) + "\n"@),
                Err(e) => Err(e),
            }
        },
        CallView::SearchVector { embedding, limit } => match hits {
            Ok(found) => Ok(search_report(nearest(t, found, limit)) + "\n"@),
            Err(e) => Err(e),
        },
        CallView::Get { id } => match find(t.memories, id) {
            Some(m) => Ok(memory_output(m, related(t, id))),
            None => Ok(unknown_memory_text(id) + "\n"@),
        },
        CallView::List { status, kind, limit } => Ok(
            list_output(listing(t.memories, status, kind, limit), "No memories found.\n"@),
        ),
        CallView::Ready { limit } => Ok(
            list_output(ready_listing(t, limit), "No ready tasks or blockers found.\n"@),
        ),
        CallView::Resolve { id, note } => match resolve_plan(t, id, note, now) {
            Ok(_) => Ok(resolved_text(resolved_row(find(t.memories, id)->0, note, now)) + "\n"@),
            Err(e) => Err(e.text()),
        },
        CallView::Consolidate { session_id, learnings, purge_ephemeral } => {
            let ids = learning_ids(learnings, shorts);
            match consolidate_plan(t, session_id, learnings, ids, purge_ephemeral, now) {
                Ok(_) => Ok(
                    consolidated_output(
                        consolidation_summary(t, session_id, learnings, ids, purge_ephemeral, now),
                    ),
                ),
                Err(e) => Err(e.text()),
            }
        },
    }
}

/// Appends a line with a label, where there is something to put on it.
fn push_labelled(out: &mut String, label: &str, value: &Option<String>)
    ensures
        final(out)@ == old(out)@ + labelled(label@, opt_text(*value)),
{
    match value {
        Some(v) => {
            let mut line = label.to_owned();
            line.append(v.as_str());
            line.append("\n");
            out.append(line.as_str());
        },
        None => {
            proof {
                assert(out@ + Seq::<char>::empty() =~= out@);
            }
        },
    }
}

/// A text filled up with blanks to a width.
fn pad(s: String, width: usize) -> (res: String)
    ensures
        res@ == padded(s@, width as nat),
{
    let mut n: usize = s.as_str().unicode_len();
    let mut res = s;
    let ghost len = s@.len();
    proof {
        assert(res@ =~= s@ + Seq::new((n - len) as nat, |i: int| ' '));
    }
    while n < width
        invariant
            len == s@.len(),
            len <= n,
            n <= width || n == len,
            res@ == s@ + Seq::new((n - len) as nat, |i: int| ' '),
        decreases width - n,
    {
        res.push(' ');
        n += 1;
        proof {
            assert(res@ =~= s@ + Seq::new((n - len) as nat, |i: int| ' '));
        }
    }
    proof {
        assert(res@ =~= padded(s@, width as nat));
    }
    res
}

/// What is printed of a memory that was recorded.
fn print_recorded(m: &Memory) -> (res: String)
    ensures
        res@ == recorded_output(m@),
{
    let mut res = "Recorded memory: [".to_owned();
    res.append(m.id.as_str());
    res.append("] ");
    res.append(m.title.as_str());
    res.append("\n  Kind:   ");
    res.append(m.kind.as_str());
    res.append("\n  Status: ");
    res.append(m.status.as_str());
    res.append("\n");
    push_labelled(&mut res, "  Tags:   ", &m.tags);
    res
}

/// What is printed of a memory and its neighbours.
fn print_memory(m: &Memory, relations: &Vec<RelatedEntity>) -> (res: String)
    ensures
        res@ == memory_output(m@, related_rows(relations@)),
{
    let mut res = "ID:          ".to_owned();
    res.append(m.id.as_str());
    res.append("\nTitle:       ");
    res.append(m.title.as_str());
    res.append("\nKind:        ");
    res.append(m.kind.as_str());
    res.append("\nStatus:      ");
    res.append(m.status.as_str());
    res.append("\n");
    push_labelled(&mut res, "Tags:        ", &m.tags);
    push_labelled(&mut res, "Session:     ", &m.session_id);
    res.append("Created At:  ");
    res.append(m.created_at.as_str());
    res.append("\nUpdated At:  ");
    res.append(m.updated_at.as_str());
    res.append("\n\nBody:\n");
    res.append(m.body.as_str());
    res.append("\n");
    if relations.len() > 0 {
        let mut section = "\nRelations:\n".to_owned();
        let lines = format_relations(relations);
        section.append(lines.as_str());
        res.append(section.as_str());
    } else {
        proof {
            assert(res@ + Seq::<char>::empty() =~= res@);
        }
    }
    res
}

/// A memory on a line of a list.
fn print_line(m: &Memory) -> (res: String)
    ensures
        res@ == list_line(m@),
{
    let mut kind = "(".to_owned();
    kind.append(m.kind.as_str());
    kind.append(")");
    let kind = pad(kind, 9);
    let mut res = "[".to_owned();
    res.append(m.id.as_str());
    res.append("] ");
    res.append(kind.as_str());
    res.append(" ");
    res.append(m.status.as_str());
    res.append(" ");
    res.append(m.title.as_str());
    res.append("\n");
    res
}

/// What is printed of a list.
fn print_list(memories: &Vec<Memory>, none: &str) -> (res: String)
    ensures
        res@ == list_output(memory_rows(memories@), none@),
{
    if memories.len() == 0 {
        return none.to_owned();
    }
    let ghost rows = memory_rows(memories@);
    let ghost f = |m: MemoryView| list_line(m);
    let mut res = String::new();
    let mut i: usize = 0;
    proof {
        assert(rows.take(0).map_values(f) =~= Seq::empty());
    }
    while i < memories.len()
        invariant
            i <= memories@.len(),
            rows == memory_rows(memories@),
            f == (|m: MemoryView| list_line(m)),
            res@ == concat(rows.take(i as int).map_values(f)),
        decreases memories@.len() - i,
    {
        let line = print_line(&memories[i]);
        res.append(line.as_str());
        proof {
            let m = rows[i as int];
            assert(m == memories@[i as int]@);
            lemma_concat_push(rows.take(i as int).map_values(f), f(m));
            assert(rows.take(i + 1).map_values(f) =~= rows.take(i as int).map_values(f).push(f(m)));
        }
        i += 1;
    }
    proof {
        assert(rows.take(i as int) =~= rows);
    }
    res
}

/// What is printed of a session that was consolidated.
fn print_consolidation(c: &ConsolidationResult) -> (res: String)
    ensures
        res@ == consolidated_output(c@),
{
    let mut res = "Consolidated session '".to_owned();
    res.append(c.session_id.as_str());
    res.append("':\n  Learnings recorded:  ");
    push_decimal(&mut res, c.learnings_recorded as u64);
    res.append("\n  Ephemeral purged:    ");
    push_decimal(&mut res, c.ephemeral_purged as u64);
    res.append("\n  Ephemeral archived:  ");
    push_decimal(&mut res, c.ephemeral_archived as u64);
    res.append("\n  Recorded IDs:        ");
    let ids = format_ids(&c.recorded_ids);
    res.append(ids.as_str());
    res.append("\n");
    res
}

/// Makes a call on the graph at the time `now`, with the given short texts for
/// the identifiers that it needs, and returns what is printed.
pub fn perform(
    store: &mut MemoryStore,
    call: ToolCall,
    hits: &Result<Vec<Hit>, String>,
    shorts: &Vec<String>,
    now: &str,
) -> (res: Result<String, String>)
    requires
        old(store).valid(),
        shorts@.len() == ids_needed(call@),
    ensures
        committed(
            *old(store),
            *final(store),
            changes_of(old(store)@, call@, texts(shorts@), now@),
        ),
        answer_value(res) == output_of(
            old(store)@,
            call@,
            hits_value(*hits),
            texts(shorts@),
            now@,
        ),
{
    proof {
        lemma_refused_committed(*store, *store);
    }
    match call {
        ToolCall::Record { options } => {
            let id = match &options.id {
                Some(id) => id.clone(),
                None => make_id(options.kind, shorts[0].as_str()),
            };
            match store.record_memory_as(options, id, now) {
                Ok(m) => Ok(print_recorded(&m)),
                Err(e) => {
                    proof {
                        lemma_refused_committed(*old(store), *store);
                    }
                    Err(e.message())
                },
            }
        },
        ToolCall::Link { source_id, target_id, relation_type } => {
            match store.link_entities(source_id.as_str(), target_id.as_str(), relation_type, now) {
                Ok(_) => {
                    let mut text = "Linked: [".to_owned();
                    text.append(source_id.as_str());
                    text.append("] --(");
                    text.append(relation_type.as_str());
                    text.append(")--> [");
                    text.append(target_id.as_str());
                    text.append("]\n");
                    Ok(text)
                },
                Err(e) => {
                    proof {
                        lemma_refused_committed(*old(store), *store);
                    }
                    Err(e.message())
                },
            }
        },
        ToolCall::Search { options } => match index_query(&options) {
            None => {
                let none: Vec<Hit> = Vec::new();
                proof {
                    assert(hit_rows(none@) =~= Seq::empty());
                }
                let results = store.search_memory(options, &none);
                let mut text = format_search_results_for_llm(&results);
                text.append("\n");
                Ok(text)
            },
            Some(_) => match hits {
                Ok(found) => {
                    let results = store.search_memory(options, found);
                    let mut text = format_search_results_for_llm(&results);
                    text.append("\n");
                    Ok(text)
                },
                Err(message) => Err(message.clone()),
            },
        },
        ToolCall::SearchVector { embedding, limit } => match hits {
            Ok(found) => {
                let results = store.nearest_results(found, limit);
                let mut text = format_search_results_for_llm(&results);
                text.append("\n");
                Ok(text)
            },
            Err(message) => Err(message.clone()),
        },
        ToolCall::Get { id } => match store.get_memory(id.as_str()) {
            Some((m, relations)) => Ok(print_memory(&m, &relations)),
            None => {
                let mut text = "Memory with ID '".to_owned();
                text.append(id.as_str());
                text.append("' not found.");
                text.append("\n");
                Ok(text)
            },
        },
        ToolCall::List { status, kind, limit } => {
            let list = store.list_memories(status, kind, limit);
            Ok(print_list(&list, "No memories found.\n"))
        },
        ToolCall::Ready { limit } => {
            let list = store.list_ready(limit);
            Ok(print_list(&list, "No ready tasks or blockers found.\n"))
        },
        ToolCall::Resolve { id, note } => {
            let note_text = match &note {
                Some(n) => Some(n.as_str()),
                None => None,
            };
            match store.resolve_memory(id.as_str(), note_text, now) {
                Ok(m) => {
                    let mut text = "Resolved memory [".to_owned();
                    text.append(m.id.as_str());
                    text.append("] ");
                    text.append(m.title.as_str());
                    text.append(" (status: ");
                    text.append(m.status.as_str());
                    text.append(")");
                    text.append("\n");
                    Ok(text)
                },
                Err(e) => {
                    proof {
                        lemma_refused_committed(*old(store), *store);
                    }
                    Err(e.message())
                },
            }
        },
        ToolCall::Consolidate { session_id, learnings, purge_ephemeral } => {
            match store.consolidate_session_as(
                session_id.as_str(),
                learnings,
                shorts,
                purge_ephemeral,
                now,
            ) {
                Ok(summary) => Ok(print_consolidation(&summary)),
                Err(e) => {
                    proof {
                        lemma_refused_committed(*old(store), *store);
                    }
                    Err(e.message())
                },
            }
        },
    }
}

/// A count on a line of its own.
pub open spec fn count_line(label: Seq<char>, n: i64) -> Seq<char> {
    label + signed_decimal(n as int) + "\n"@
}

/// The number of edges of a type on a line of its own.
pub open spec fn type_line(c: (Seq<char>, i64)) -> Seq<char> {
    "    - "@ + padded(c.0, 15) + " "@ + signed_decimal(c.1 as int) + "\n"@
}

/// What is printed of how much the database holds.
pub open spec fn stats_output(stats: DatabaseStats, db: Seq<char>) -> Seq<char> {
    let types = named_counts(stats.relations_by_type@);
    let breakdown = if types.len() == 0 {
        Seq::empty()
    } else {
        "  Relations Breakdown:\n"@ + concat(types.map_values(|c: (Seq<char>, i64)| type_line(c)))
    };
    "Database Statistics ("@ + db + "):\n"@ + count_line(
        "  Total Memories:       "@,
        stats.total_memories,
    ) + count_line("  Active Memories:      "@, stats.active_memories) + count_line(
        "  Superseded Memories:  "@,
        stats.superseded_memories,
    ) + count_line("  Resolved Memories:    "@, stats.resolved_memories) + count_line(
        "  Ephemeral Memories:   "@,
        stats.ephemeral_memories,
    ) + count_line("  Total Relations:      "@, stats.total_relations) + breakdown
}

/// A count on a line of its own.
fn print_count(label: &str, n: i64) -> (res: String)
    ensures
        res@ == count_line(label@, n),
{
    let mut res = label.to_owned();
    push_signed(&mut res, n);
    res.append("\n");
    res
}

/// What is printed of how much the database `db` holds.
pub fn print_stats(stats: &DatabaseStats, db: &str) -> (res: String)
    ensures
        res@ == stats_output(*stats, db@),
{
    let mut res = "Database Statistics (".to_owned();
    res.append(db);
    res.append("):\n");
    let line = print_count("  Total Memories:       ", stats.total_memories);
    res.append(line.as_str());
    let line = print_count("  Active Memories:      ", stats.active_memories);
    res.append(line.as_str());
    let line = print_count("  Superseded Memories:  ", stats.superseded_memories);
    res.append(line.as_str());
    let line = print_count("  Resolved Memories:    ", stats.resolved_memories);
    res.append(line.as_str());
    let line = print_count("  Ephemeral Memories:   ", stats.ephemeral_memories);
    res.append(line.as_str());
    let line = print_count("  Total Relations:      ", stats.total_relations);
    res.append(line.as_str());
    let ghost types = named_counts(stats.relations_by_type@);
    let ghost f = |c: (Seq<char>, i64)| type_line(c);
    if stats.relations_by_type.len() == 0 {
        proof {
            assert(res@ + Seq::<char>::empty() =~= res@);
        }
        return res;
    }
    let mut lines = String::new();
    let mut i: usize = 0;
    proof {
        assert(types.take(0).map_values(f) =~= Seq::empty());
    }
    while i < stats.relations_by_type.len()
        invariant
            i <= stats.relations_by_type@.len(),
            types == named_counts(stats.relations_by_type@),
            f == (|c: (Seq<char>, i64)| type_line(c)),
            lines@ == concat(types.take(i as int).map_values(f)),
        decreases stats.relations_by_type@.len() - i,
    {
        let name = pad(stats.relations_by_type[i].0.clone(), 15);
        let mut line = "    - ".to_owned();
        line.append(name.as_str());
        line.append(" ");
        push_signed(&mut line, stats.relations_by_type[i].1);
        line.append("\n");
        lines.append(line.as_str());
        proof {
            let c = types[i as int];
            lemma_concat_push(types.take(i as int).map_values(f), f(c));
            assert(types.take(i + 1).map_values(f) =~= types.take(i as int).map_values(f).push(
                f(c),
            ));
        }
        i += 1;
    }
    proof {
        assert(types.take(i as int) =~= types);
    }
    let mut breakdown = "  Relations Breakdown:\n".to_owned();
    breakdown.append(lines.as_str());
    res.append(breakdown.as_str());
    res
}

} // verus!

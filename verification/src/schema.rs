//! The tools that clients are offered.

use crate::json::{empty_array, empty_object, item_rows, Json, JsonView};
use vstd::prelude::*;
use vstd::string::*;

verus! {

/// A parameter of the type, with what is said of it.
pub open spec fn field(kind: Seq<char>, description: Seq<char>) -> JsonView {
    empty_object().with("type"@, JsonView::Text(kind)).with(
        "description"@,
        JsonView::Text(description),
    )
}

/// A parameter that takes one of the given texts.
pub open spec fn choice(options: JsonView, description: Seq<char>) -> JsonView {
    empty_object().with("type"@, JsonView::Text("string"@)).with("enum"@, options).with(
        "description"@,
        JsonView::Text(description),
    )
}

/// A parameter of the type alone.
pub open spec fn bare(kind: Seq<char>) -> JsonView {
    empty_object().with("type"@, JsonView::Text(kind))
}

/// An array with one text more.
pub open spec fn listed(list: JsonView, text: Seq<char>) -> JsonView {
    list.item(JsonView::Text(text))
}

/// The kinds that a learning usually has.
pub open spec fn lasting_kinds() -> JsonView {
    listed(listed(listed(listed(empty_array(), "decision"@), "task"@), "invariant"@), "blocker"@)
}

/// The kinds of memories.
pub open spec fn kinds() -> JsonView {
    listed(lasting_kinds(), "ephemeral"@)
}

/// The states of memories.
pub open spec fn statuses() -> JsonView {
    listed(
        listed(listed(listed(empty_array(), "active"@), "superseded"@), "resolved"@),
        "ephemeral"@,
    )
}

/// The types of edges.
pub open spec fn relations() -> JsonView {
    listed(
        listed(listed(listed(empty_array(), "depends_on"@), "blocks"@), "references"@),
        "supersedes"@,
    )
}

/// A parameter that takes numbers.
pub open spec fn number_list(description: Seq<char>) -> JsonView {
    field("array"@, description).with("items"@, bare("number"@))
}

/// A parameter that takes learnings.
pub open spec fn learning_list(description: Seq<char>) -> JsonView {
    let kind = empty_object().with("type"@, JsonView::Text("string"@)).with(
        "enum"@,
        lasting_kinds(),
    ).with("default"@, JsonView::Text("decision"@));
    let properties = empty_object().with("title"@, bare("string"@)).with(
        "body"@,
        bare("string"@),
    ).with("tags"@, bare("string"@)).with("kind"@, kind);
    let learning = bare("object"@).with("properties"@, properties).with(
        "required"@,
        listed(listed(empty_array(), "title"@), "body"@),
    );
    field("array"@, description).with("items"@, learning)
}

/// A tool with its parameters, of which some must be given.
pub open spec fn tool(
    name: Seq<char>,
    description: Seq<char>,
    properties: JsonView,
    required: JsonView,
) -> JsonView {
    let schema = bare("object"@).with("properties"@, properties).with("required"@, required);
    empty_object().with("name"@, JsonView::Text(name)).with(
        "description"@,
        JsonView::Text(description),
    ).with("inputSchema"@, schema)
}

fn make_field(kind: &str, description: &str) -> (res: Json)
    ensures
        res@ == field(kind@, description@),
{
    Json::object().with("type", Json::text(kind)).with("description", Json::text(description))
}

fn make_choice(options: Json, description: &str) -> (res: Json)
    ensures
        res@ == choice(options@, description@),
{
    Json::object().with("type", Json::text("string")).with("enum", options).with(
        "description",
        Json::text(description),
    )
}

fn make_bare(kind: &str) -> (res: Json)
    ensures
        res@ == bare(kind@),
{
    Json::object().with("type", Json::text(kind))
}

fn make_listed(list: Json, text: &str) -> (res: Json)
    ensures
        res@ == listed(list@, text@),
{
    list.item(Json::text(text))
}

fn make_lasting_kinds() -> (res: Json)
    ensures
        res@ == lasting_kinds(),
{
    let list = make_listed(Json::array(), "decision");
    let list = make_listed(list, "task");
    let list = make_listed(list, "invariant");
    make_listed(list, "blocker")
}

fn make_kinds() -> (res: Json)
    ensures
        res@ == kinds(),
{
    make_listed(make_lasting_kinds(), "ephemeral")
}

fn make_statuses() -> (res: Json)
    ensures
        res@ == statuses(),
{
    let list = make_listed(Json::array(), "active");
    let list = make_listed(list, "superseded");
    let list = make_listed(list, "resolved");
    make_listed(list, "ephemeral")
}

fn make_relations() -> (res: Json)
    ensures
        res@ == relations(),
{
    let list = make_listed(Json::array(), "depends_on");
    let list = make_listed(list, "blocks");
    let list = make_listed(list, "references");
    make_listed(list, "supersedes")
}

fn make_number_list(description: &str) -> (res: Json)
    ensures
        res@ == number_list(description@),
{
    make_field("array", description).with("items", make_bare("number"))
}

fn make_learning_list(description: &str) -> (res: Json)
    ensures
        res@ == learning_list(description@),
{
    let kind = Json::object().with("type", Json::text("string")).with(
        "enum",
        make_lasting_kinds(),
    ).with("default", Json::text("decision"));
    let properties = Json::object().with("title", make_bare("string")).with(
        "body",
        make_bare("string"),
    ).with("tags", make_bare("string")).with("kind", kind);
    let required = make_listed(make_listed(Json::array(), "title"), "body");
    let learning = make_bare("object").with("properties", properties).with("required", required);
    make_field("array", description).with("items", learning)
}

fn make_tool(name: &str, description: &str, properties: Json, required: Json) -> (res: Json)
    ensures
        res@ == tool(name@, description@, properties@, required@),
{
    let schema = make_bare("object").with("properties", properties).with("required", required);
    Json::object().with("name", Json::text(name)).with(
        "description",
        Json::text(description),
    ).with("inputSchema", schema)
}

/// The tool `record_memory`.
pub open spec fn record_memory_tool() -> JsonView {
    let properties = empty_object().with(
        "kind"@,
        choice(kinds(), "The category of memory."@),
    ).with(
        "title"@,
        field("string"@, "Short, clear summary title."@),
    ).with(
        "body"@,
        field("string"@, "Detailed markdown explanation, reasoning, architecture decision, or instructions."@),
    ).with(
        "tags"@,
        field("string"@, "Space/comma-separated synonyms, keywords, or error codes (e.g. 'sqlite wal timeout retry') to prevent FTS5 vocabulary mismatch."@),
    ).with(
        "supersedes_id"@,
        field("string"@, "If provided, atomically marks this previous memory ID as 'superseded' and adds a 'supersedes' relation edge."@),
    ).with(
        "session_id"@,
        field("string"@, "Optional identifier for the current agent work session."@),
    ).with(
        "id"@,
        field("string"@, "Optional custom ID (e.g. 'DEC-2026-001'). Generated automatically if omitted."@),
    );
    tool(
        "record_memory"@,
        "Record a new memory node (decision, task, invariant, blocker, ephemeral) with optional atomic DAG supersession. When supersedes_id is provided, automatically marks the target memory as 'superseded' and records a 'supersedes' DAG relation in an atomic transaction."@,
        properties,
        listed(listed(listed(empty_array(), "kind"@), "title"@), "body"@),
    )
}

fn make_record_memory_tool() -> (res: Json)
    ensures
        res@ == record_memory_tool(),
{
    let properties = Json::object().with(
        "kind",
        make_choice(make_kinds(), "The category of memory."),
    ).with(
        "title",
        make_field("string", "Short, clear summary title."),
    ).with(
        "body",
        make_field("string", "Detailed markdown explanation, reasoning, architecture decision, or instructions."),
    ).with(
        "tags",
        make_field("string", "Space/comma-separated synonyms, keywords, or error codes (e.g. 'sqlite wal timeout retry') to prevent FTS5 vocabulary mismatch."),
    ).with(
        "supersedes_id",
        make_field("string", "If provided, atomically marks this previous memory ID as 'superseded' and adds a 'supersedes' relation edge."),
    ).with(
        "session_id",
        make_field("string", "Optional identifier for the current agent work session."),
    ).with(
        "id",
        make_field("string", "Optional custom ID (e.g. 'DEC-2026-001'). Generated automatically if omitted."),
    );
    let required = make_listed(make_listed(make_listed(Json::array(), "kind"), "title"), "body");
    make_tool(
        "record_memory",
        "Record a new memory node (decision, task, invariant, blocker, ephemeral) with optional atomic DAG supersession. When supersedes_id is provided, automatically marks the target memory as 'superseded' and records a 'supersedes' DAG relation in an atomic transaction.",
        properties,
        required,
    )
}

/// The tool `link_entities`.
pub open spec fn link_entities_tool() -> JsonView {
    let properties = empty_object().with(
        "source_id"@,
        field("string"@, "The ID of the source memory node."@),
    ).with(
        "target_id"@,
        field("string"@, "The ID of the target memory node."@),
    ).with(
        "relation_type"@,
        choice(relations(), "Directed relationship type."@),
    );
    tool(
        "link_entities"@,
        "Create a directed relation between two memories in the DAG (depends_on, blocks, references, supersedes)."@,
        properties,
        listed(listed(listed(empty_array(), "source_id"@), "target_id"@), "relation_type"@),
    )
}

fn make_link_entities_tool() -> (res: Json)
    ensures
        res@ == link_entities_tool(),
{
    let properties = Json::object().with(
        "source_id",
        make_field("string", "The ID of the source memory node."),
    ).with(
        "target_id",
        make_field("string", "The ID of the target memory node."),
    ).with(
        "relation_type",
        make_choice(make_relations(), "Directed relationship type."),
    );
    let required = make_listed(make_listed(make_listed(Json::array(), "source_id"), "target_id"), "relation_type");
    make_tool(
        "link_entities",
        "Create a directed relation between two memories in the DAG (depends_on, blocks, references, supersedes).",
        properties,
        required,
    )
}

/// The tool `search_memory`.
pub open spec fn search_memory_tool() -> JsonView {
    let properties = empty_object().with(
        "query"@,
        field("string"@, "Search query terms or phrases."@),
    ).with(
        "kind"@,
        choice(kinds(), "Optional filter by memory kind."@),
    ).with(
        "include_resolved"@,
        field("boolean"@, "Whether to include resolved or superseded memories (default: false)."@),
    ).with(
        "limit"@,
        field("integer"@, "Maximum number of matched nodes to return (default: 10)."@),
    );
    tool(
        "search_memory"@,
        "Search memories using FTS5 BM25 keyword matching with automatic 1-hop DAG expansion for dependencies, blockers, and superseded items."@,
        properties,
        listed(empty_array(), "query"@),
    )
}

fn make_search_memory_tool() -> (res: Json)
    ensures
        res@ == search_memory_tool(),
{
    let properties = Json::object().with(
        "query",
        make_field("string", "Search query terms or phrases."),
    ).with(
        "kind",
        make_choice(make_kinds(), "Optional filter by memory kind."),
    ).with(
        "include_resolved",
        make_field("boolean", "Whether to include resolved or superseded memories (default: false)."),
    ).with(
        "limit",
        make_field("integer", "Maximum number of matched nodes to return (default: 10)."),
    );
    let required = make_listed(Json::array(), "query");
    make_tool(
        "search_memory",
        "Search memories using FTS5 BM25 keyword matching with automatic 1-hop DAG expansion for dependencies, blockers, and superseded items.",
        properties,
        required,
    )
}

/// The tool `search_vector`.
pub open spec fn search_vector_tool() -> JsonView {
    let properties = empty_object().with(
        "embedding"@,
        number_list("The query embedding (384 components)."@),
    ).with(
        "limit"@,
        field("integer"@, "Maximum number of nearest nodes to return (default: 10)."@),
    );
    tool(
        "search_vector"@,
        "Search memories by dense vector KNN similarity with automatic 1-hop DAG expansion."@,
        properties,
        listed(empty_array(), "embedding"@),
    )
}

fn make_search_vector_tool() -> (res: Json)
    ensures
        res@ == search_vector_tool(),
{
    let properties = Json::object().with(
        "embedding",
        make_number_list("The query embedding (384 components)."),
    ).with(
        "limit",
        make_field("integer", "Maximum number of nearest nodes to return (default: 10)."),
    );
    let required = make_listed(Json::array(), "embedding");
    make_tool(
        "search_vector",
        "Search memories by dense vector KNN similarity with automatic 1-hop DAG expansion.",
        properties,
        required,
    )
}

/// The tool `get_memory`.
pub open spec fn get_memory_tool() -> JsonView {
    let properties = empty_object().with(
        "id"@,
        field("string"@, "The ID of the memory node."@),
    );
    tool(
        "get_memory"@,
        "Fetch a specific memory node with all incoming and outgoing relations."@,
        properties,
        listed(empty_array(), "id"@),
    )
}

fn make_get_memory_tool() -> (res: Json)
    ensures
        res@ == get_memory_tool(),
{
    let properties = Json::object().with(
        "id",
        make_field("string", "The ID of the memory node."),
    );
    let required = make_listed(Json::array(), "id");
    make_tool(
        "get_memory",
        "Fetch a specific memory node with all incoming and outgoing relations.",
        properties,
        required,
    )
}

/// The tool `list_memories`.
pub open spec fn list_memories_tool() -> JsonView {
    let properties = empty_object().with(
        "kind"@,
        choice(kinds(), "Optional filter by memory kind."@),
    ).with(
        "status"@,
        choice(statuses(), "Optional filter by memory status."@),
    ).with(
        "limit"@,
        field("integer"@, "Maximum number of memories to list (default: 20)."@),
    );
    tool(
        "list_memories"@,
        "List memories from the latest update on, with optional filters."@,
        properties,
        empty_array(),
    )
}

fn make_list_memories_tool() -> (res: Json)
    ensures
        res@ == list_memories_tool(),
{
    let properties = Json::object().with(
        "kind",
        make_choice(make_kinds(), "Optional filter by memory kind."),
    ).with(
        "status",
        make_choice(make_statuses(), "Optional filter by memory status."),
    ).with(
        "limit",
        make_field("integer", "Maximum number of memories to list (default: 20)."),
    );
    let required = Json::array();
    make_tool(
        "list_memories",
        "List memories from the latest update on, with optional filters.",
        properties,
        required,
    )
}

/// The tool `list_ready`.
pub open spec fn list_ready_tool() -> JsonView {
    let properties = empty_object().with(
        "limit"@,
        field("integer"@, "Maximum number of memories to list (default: 20)."@),
    );
    tool(
        "list_ready"@,
        "List claimable tasks and blockers: active, with no incoming active 'blocks' edge. This is not an atomic claim."@,
        properties,
        empty_array(),
    )
}

fn make_list_ready_tool() -> (res: Json)
    ensures
        res@ == list_ready_tool(),
{
    let properties = Json::object().with(
        "limit",
        make_field("integer", "Maximum number of memories to list (default: 20)."),
    );
    let required = Json::array();
    make_tool(
        "list_ready",
        "List claimable tasks and blockers: active, with no incoming active 'blocks' edge. This is not an atomic claim.",
        properties,
        required,
    )
}

/// The tool `resolve_memory`.
pub open spec fn resolve_memory_tool() -> JsonView {
    let properties = empty_object().with(
        "id"@,
        field("string"@, "The ID of the memory node."@),
    ).with(
        "note"@,
        field("string"@, "Optional note on how it was resolved."@),
    );
    tool(
        "resolve_memory"@,
        "Mark a task or blocker as resolved with an optional completion note."@,
        properties,
        listed(empty_array(), "id"@),
    )
}

fn make_resolve_memory_tool() -> (res: Json)
    ensures
        res@ == resolve_memory_tool(),
{
    let properties = Json::object().with(
        "id",
        make_field("string", "The ID of the memory node."),
    ).with(
        "note",
        make_field("string", "Optional note on how it was resolved."),
    );
    let required = make_listed(Json::array(), "id");
    make_tool(
        "resolve_memory",
        "Mark a task or blocker as resolved with an optional completion note.",
        properties,
        required,
    )
}

/// The tool `consolidate_session`.
pub open spec fn consolidate_session_tool() -> JsonView {
    let properties = empty_object().with(
        "session_id"@,
        field("string"@, "The session ID being consolidated."@),
    ).with(
        "learnings"@,
        learning_list("List of permanent learnings or decisions derived from the session."@),
    ).with(
        "purge_ephemeral"@,
        field("boolean"@, "If true (default), completely deletes ephemeral items for this session. If false, archives them as resolved."@),
    );
    tool(
        "consolidate_session"@,
        "Consolidate session learnings into permanent memories while purging or archiving ephemeral session observations."@,
        properties,
        listed(listed(empty_array(), "session_id"@), "learnings"@),
    )
}

fn make_consolidate_session_tool() -> (res: Json)
    ensures
        res@ == consolidate_session_tool(),
{
    let properties = Json::object().with(
        "session_id",
        make_field("string", "The session ID being consolidated."),
    ).with(
        "learnings",
        make_learning_list("List of permanent learnings or decisions derived from the session."),
    ).with(
        "purge_ephemeral",
        make_field("boolean", "If true (default), completely deletes ephemeral items for this session. If false, archives them as resolved."),
    );
    let required = make_listed(make_listed(Json::array(), "session_id"), "learnings");
    make_tool(
        "consolidate_session",
        "Consolidate session learnings into permanent memories while purging or archiving ephemeral session observations.",
        properties,
        required,
    )
}

/// The tools that clients are offered.
pub open spec fn tool_definitions() -> Seq<JsonView> {
    seq![
        record_memory_tool(),
        link_entities_tool(),
        search_memory_tool(),
        search_vector_tool(),
        get_memory_tool(),
        list_memories_tool(),
        list_ready_tool(),
        resolve_memory_tool(),
        consolidate_session_tool(),
    ]
}

/// The tools that clients are offered.
pub fn get_tool_definitions() -> (res: Vec<Json>)
    ensures
        item_rows(res@) == tool_definitions(),
{
    let mut res: Vec<Json> = Vec::new();
    res.push(make_record_memory_tool());
    res.push(make_link_entities_tool());
    res.push(make_search_memory_tool());
    res.push(make_search_vector_tool());
    res.push(make_get_memory_tool());
    res.push(make_list_memories_tool());
    res.push(make_list_ready_tool());
    res.push(make_resolve_memory_tool());
    res.push(make_consolidate_session_tool());
    proof {
        assert(item_rows(res@) =~= tool_definitions());
    }
    res
}

/// The names of the tools.
pub open spec fn tool_names() -> Seq<Seq<char>> {
    seq![
        "record_memory"@,
        "link_entities"@,
        "search_memory"@,
        "search_vector"@,
        "get_memory"@,
        "list_memories"@,
        "list_ready"@,
        "resolve_memory"@,
        "consolidate_session"@,
    ]
}

/// A tool carries its name.
proof fn lemma_tool_name(
    name: Seq<char>,
    description: Seq<char>,
    properties: JsonView,
    required: JsonView,
)
    ensures
        tool(name, description, properties, required).text_at("name"@) == Some(name),
{
    let members = tool(name, description, properties, required)->Object_0;
    assert(members[0] == ("name"@, JsonView::Text(name)));
}

/// The tools carry their names.
pub proof fn lemma_tool_named(i: int)
    requires
        0 <= i < tool_definitions().len(),
    ensures
        tool_names().len() == tool_definitions().len(),
        tool_definitions()[i].text_at("name"@) == Some(tool_names()[i]),
{
    assert forall|n: Seq<char>, d: Seq<char>, p: JsonView, r: JsonView| (#[trigger] tool(
        n,
        d,
        p,
        r,
    )).text_at("name"@) == Some(n) by {
        lemma_tool_name(n, d, p, r);
    }
}

} // verus!

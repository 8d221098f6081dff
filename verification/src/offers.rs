//! What clients are told of the tools agrees with what the tools take.

use crate::calls::{
    call_of, consolidate_call, learnings_of, link_call, record_call, search_call,
    search_vector_call,
};
use crate::json::{empty_object, JsonView};
use crate::models::{
    kind_named, normal_form, relation_named, MemoryKind, MemoryStatus, RelationType,
};
use crate::requests::{law_json_builders, law_json_member, lemma_tool_calls};
use crate::schema::{
    consolidate_session_tool, get_memory_tool, kinds, lasting_kinds, link_entities_tool,
    list_memories_tool, list_ready_tool, record_memory_tool, relations, resolve_memory_tool,
    search_memory_tool, search_vector_tool, statuses, tool, tool_definitions, tool_names,
};
use vstd::prelude::*;

verus! {

/// A list offers the text.
pub open spec fn offers(list: JsonView, text: Seq<char>) -> bool {
    list matches JsonView::Array(items) && items.contains(JsonView::Text(text))
}

/// The kinds, states and edge types that clients are offered are those that there
/// are; for learnings all kinds but the ephemeral one are offered.
pub proof fn law_offered_choices(
    kind: MemoryKind,
    status: MemoryStatus,
    relation: RelationType,
    text: Seq<char>,
)
    ensures
        offers(kinds(), kind.text()),
        offers(statuses(), status.text()),
        offers(relations(), relation.text()),
        kind != MemoryKind::Ephemeral ==> offers(lasting_kinds(), kind.text()),
        offers(kinds(), text) ==> exists|k: MemoryKind| text == #[trigger] k.text(),
        offers(statuses(), text) ==> exists|s: MemoryStatus| text == #[trigger] s.text(),
        offers(relations(), text) ==> exists|r: RelationType| text == #[trigger] r.text(),
{
    let a = kinds()->Array_0;
    let l = lasting_kinds()->Array_0;
    let b = statuses()->Array_0;
    let c = relations()->Array_0;
    let t = |s: Seq<char>| JsonView::Text(s);
    assert(a[0] == t(MemoryKind::Decision.text()) && a[1] == t(MemoryKind::Task.text()) && a[2]
        == t(MemoryKind::Invariant.text()) && a[3] == t(MemoryKind::Blocker.text()) && a[4] == t(
        MemoryKind::Ephemeral.text(),
    ) && a.len() == 5);
    assert(l[0] == t(MemoryKind::Decision.text()) && l[1] == t(MemoryKind::Task.text()) && l[2]
        == t(MemoryKind::Invariant.text()) && l[3] == t(MemoryKind::Blocker.text()));
    assert(b[0] == t(MemoryStatus::Active.text()) && b[1] == t(MemoryStatus::Superseded.text())
        && b[2] == t(MemoryStatus::Resolved.text()) && b[3] == t(MemoryStatus::Ephemeral.text())
        && b.len() == 4);
    assert(c[0] == t(RelationType::DependsOn.text()) && c[1] == t(RelationType::Blocks.text())
        && c[2] == t(RelationType::References.text()) && c[3] == t(RelationType::Supersedes.text())
        && c.len() == 4);
    if offers(kinds(), text) {
        let i = choose|i: int| 0 <= i < a.len() && a[i] == JsonView::Text(text);
        assert(a[i] == t(text));
    }
    if offers(statuses(), text) {
        let i = choose|i: int| 0 <= i < b.len() && b[i] == JsonView::Text(text);
        assert(b[i] == t(text));
    }
    if offers(relations(), text) {
        let i = choose|i: int| 0 <= i < c.len() && c[i] == JsonView::Text(text);
        assert(c[i] == t(text));
    }
}

/// The parameters of a tool.
pub open spec fn properties(tool: JsonView) -> JsonView {
    tool.get("inputSchema"@)->0.get("properties"@)->0
}

/// The parameters of a tool that must be given.
pub open spec fn required(tool: JsonView) -> JsonView {
    tool.get("inputSchema"@)->0.get("required"@)->0
}

/// A tool's parameters, and those that must be given, stand where clients look
/// for them.
proof fn lemma_tool_parts(
    name: Seq<char>,
    description: Seq<char>,
    props: JsonView,
    needed: JsonView,
)
    ensures
        properties(tool(name, description, props, needed)) == props,
        required(tool(name, description, props, needed)) == needed,
{
    reveal_strlit("type");
    reveal_strlit("properties");
    reveal_strlit("required");
    reveal_strlit("name");
    reveal_strlit("description");
    reveal_strlit("inputSchema");
    assert("type"@[0] != "properties"@[0] && "properties"@[0] != "required"@[0] && "type"@[0]
        != "required"@[0]);
    assert("name"@[0] != "inputSchema"@[0] && "description"@[0] != "inputSchema"@[0] && "name"@[0]
        != "description"@[0]);
    let o = empty_object();
    let ty = JsonView::Text("object"@);
    let s1 = o.with("type"@, ty);
    let s2 = s1.with("properties"@, props);
    let s3 = s2.with("required"@, needed);
    law_json_builders(o, "type"@, ty, "properties"@);
    law_json_builders(o, "type"@, ty, "required"@);
    law_json_builders(s1, "properties"@, props, "required"@);
    law_json_builders(s2, "required"@, needed, "properties"@);
    let n = JsonView::Text(name);
    let d = JsonView::Text(description);
    let t1 = o.with("name"@, n);
    let t2 = t1.with("description"@, d);
    law_json_builders(o, "name"@, n, "inputSchema"@);
    law_json_builders(t1, "description"@, d, "inputSchema"@);
    law_json_builders(t2, "inputSchema"@, s3, "name"@);
}

/// Whether the tool at `i` has a parameter of the name.
pub open spec fn has_property(i: int, key: Seq<char>) -> bool {
    properties(tool_definitions()[i]).get(key) is Some
}

/// Whether the tool at `i` must be given the parameter.
pub open spec fn requires_argument(i: int, key: Seq<char>) -> bool {
    offers(required(tool_definitions()[i]), key)
}

/// An object has a member under each of its keys.
proof fn lemma_has(j: JsonView, k: int)
    requires
        j is Object,
        0 <= k < j->Object_0.len(),
    ensures
        j.get(j->Object_0[k].0) is Some,
{
    law_json_member(j, j->Object_0[k].0, k);
}

/// The parameters that the tools have.
proof fn lemma_properties()
    ensures
        has_property(0, "kind"@) && has_property(0, "title"@) && has_property(0, "body"@)
            && has_property(0, "tags"@) && has_property(0, "supersedes_id"@) && has_property(
            0,
            "session_id"@,
        ) && has_property(0, "id"@),
        has_property(1, "source_id"@) && has_property(1, "target_id"@) && has_property(
            1,
            "relation_type"@,
        ),
        has_property(2, "query"@) && has_property(2, "kind"@) && has_property(
            2,
            "include_resolved"@,
        ) && has_property(2, "limit"@),
        has_property(3, "embedding"@) && has_property(3, "limit"@),
        has_property(4, "id"@),
        has_property(5, "kind"@) && has_property(5, "status"@) && has_property(5, "limit"@),
        has_property(6, "limit"@),
        has_property(7, "id"@) && has_property(7, "note"@),
        has_property(8, "session_id"@) && has_property(8, "learnings"@) && has_property(
            8,
            "purge_ephemeral"@,
        ),
        requires_argument(0, "kind"@) && requires_argument(0, "title"@) && requires_argument(
            0,
            "body"@,
        ),
        requires_argument(1, "source_id"@) && requires_argument(1, "target_id"@)
            && requires_argument(1, "relation_type"@),
        requires_argument(3, "embedding"@),
        requires_argument(4, "id"@),
        requires_argument(7, "id"@),
        requires_argument(8, "session_id"@) && requires_argument(8, "learnings"@),
{
    assert forall|n: Seq<char>, d: Seq<char>, p: JsonView, r: JsonView|
        properties(#[trigger] tool(n, d, p, r)) == p && required(tool(n, d, p, r)) == r by {
        lemma_tool_parts(n, d, p, r);
    }
    let p0 = properties(record_memory_tool());
    lemma_has(p0, 0);
    lemma_has(p0, 1);
    lemma_has(p0, 2);
    lemma_has(p0, 3);
    lemma_has(p0, 4);
    lemma_has(p0, 5);
    lemma_has(p0, 6);
    let p1 = properties(link_entities_tool());
    lemma_has(p1, 0);
    lemma_has(p1, 1);
    lemma_has(p1, 2);
    let p2 = properties(search_memory_tool());
    lemma_has(p2, 0);
    lemma_has(p2, 1);
    lemma_has(p2, 2);
    lemma_has(p2, 3);
    let p3 = properties(search_vector_tool());
    lemma_has(p3, 0);
    lemma_has(p3, 1);
    let p4 = properties(get_memory_tool());
    lemma_has(p4, 0);
    let p5 = properties(list_memories_tool());
    lemma_has(p5, 0);
    lemma_has(p5, 1);
    lemma_has(p5, 2);
    let p6 = properties(list_ready_tool());
    lemma_has(p6, 0);
    let p7 = properties(resolve_memory_tool());
    lemma_has(p7, 0);
    lemma_has(p7, 1);
    let p8 = properties(consolidate_session_tool());
    lemma_has(p8, 0);
    lemma_has(p8, 1);
    lemma_has(p8, 2);
    let r0 = required(record_memory_tool())->Array_0;
    assert(r0[0] == JsonView::Text("kind"@) && r0[1] == JsonView::Text("title"@) && r0[2]
        == JsonView::Text("body"@));
    let r1 = required(link_entities_tool())->Array_0;
    assert(r1[0] == JsonView::Text("source_id"@) && r1[1] == JsonView::Text("target_id"@) && r1[2]
        == JsonView::Text("relation_type"@));
    let r3 = required(search_vector_tool())->Array_0;
    assert(r3[0] == JsonView::Text("embedding"@));
    let r4 = required(get_memory_tool())->Array_0;
    assert(r4[0] == JsonView::Text("id"@));
    let r7 = required(resolve_memory_tool())->Array_0;
    assert(r7[0] == JsonView::Text("id"@));
    let r8 = required(consolidate_session_tool())->Array_0;
    assert(r8[0] == JsonView::Text("session_id"@) && r8[1] == JsonView::Text("learnings"@));
}

/// A tool reads nothing but the parameters that clients are told of: arguments
/// that agree on these ask for the same.
pub proof fn law_tools_read_their_parameters(i: int, a: JsonView, b: JsonView)
    requires
        0 <= i < tool_definitions().len(),
        forall|key: Seq<char>| #[trigger] has_property(i, key) ==> a.get(key) == b.get(key),
    ensures
        call_of(tool_names()[i], a) == call_of(tool_names()[i], b),
{
    lemma_properties();
    lemma_tool_calls(a);
    lemma_tool_calls(b);
    if i == 0 {
        assert(record_call(a) == record_call(b));
    } else if i == 1 {
        assert(link_call(a) == link_call(b));
    } else if i == 2 {
        assert(search_call(a) == search_call(b));
    } else if i == 3 {
        assert(search_vector_call(a) == search_vector_call(b));
    } else if i == 4 {
        assert(a.text_at("id"@) == b.text_at("id"@));
    } else if i == 5 {
        assert(a.text_at("kind"@) == b.text_at("kind"@));
        assert(a.text_at("status"@) == b.text_at("status"@));
        assert(a.natural_at("limit"@) == b.natural_at("limit"@));
    } else if i == 6 {
        assert(a.natural_at("limit"@) == b.natural_at("limit"@));
    } else if i == 7 {
        assert(a.text_at("id"@) == b.text_at("id"@));
        assert(a.text_at("note"@) == b.text_at("note"@));
    } else {
        assert(consolidate_call(a) == consolidate_call(b));
    }
}

/// Arguments that give every parameter that must be given, as what it is told to
/// be, are never refused for one that is missing.
pub proof fn law_required_arguments_suffice(args: JsonView)
    ensures
        (forall|r: Seq<char>| #[trigger] requires_argument(0, r) ==> args.text_at(r) is Some)
            && kind_named(normal_form(args.text_at("kind"@)->0)) is Some ==> call_of(
            tool_names()[0],
            args,
        ) is Ok,
        (forall|r: Seq<char>| #[trigger] requires_argument(1, r) ==> args.text_at(r) is Some)
            && relation_named(normal_form(args.text_at("relation_type"@)->0)) is Some ==> call_of(
            tool_names()[1],
            args,
        ) is Ok,
        call_of(tool_names()[2], args) is Ok,
        (forall|r: Seq<char>| #[trigger] requires_argument(3, r) ==> args.array_at(r) is Some) && (
        forall|i: int|
            0 <= i < args.array_at("embedding"@)->0.len() ==> (#[trigger] args.array_at(
                "embedding"@,
            )->0[i]) is Number) ==> call_of(tool_names()[3], args) is Ok,
        (forall|r: Seq<char>| #[trigger] requires_argument(4, r) ==> args.text_at(r) is Some)
            ==> call_of(tool_names()[4], args) is Ok,
        call_of(tool_names()[5], args) is Ok,
        call_of(tool_names()[6], args) is Ok,
        (forall|r: Seq<char>| #[trigger] requires_argument(7, r) ==> args.text_at(r) is Some)
            ==> call_of(tool_names()[7], args) is Ok,
        (forall|r: Seq<char>| #[trigger] requires_argument(8, r) ==> args.text_at(r) is Some
            || args.array_at(r) is Some) && args.array_at("session_id"@) is None && args.text_at(
            "learnings"@,
        ) is None && learnings_of(args.array_at("learnings"@)->0) is Ok ==> call_of(
            tool_names()[8],
            args,
        ) is Ok,
{
    lemma_properties();
    lemma_tool_calls(args);
}

} // verus!

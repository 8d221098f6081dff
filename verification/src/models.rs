//! The memory graph's vocabulary: kinds, states, edges and the records made of them.

use crate::text::{
    ascii_lower, is_ascii_text, lowercase, same_text, to_lowercase, trim, trimmed, white_space,
};
use vstd::prelude::*;
use vstd::string::*;

verus! {

/// What a memory is about.
#[derive(Debug, Clone, Copy, PartialEq, Eq, Structural)]
pub enum MemoryKind {
    Decision,
    Task,
    Invariant,
    Blocker,
    Ephemeral,
}

/// A text as the parsers of this module read it: in lowercase, without
/// surrounding white space.
pub open spec fn normal_form(s: Seq<char>) -> Seq<char> {
    trimmed(lowercase(s))
}

/// The kind that a text in normal form names.
pub open spec fn kind_named(t: Seq<char>) -> Option<MemoryKind> {
    if t == "decision"@ {
        Some(MemoryKind::Decision)
    } else if t == "task"@ {
        Some(MemoryKind::Task)
    } else if t == "invariant"@ {
        Some(MemoryKind::Invariant)
    } else if t == "blocker"@ {
        Some(MemoryKind::Blocker)
    } else if t == "ephemeral"@ {
        Some(MemoryKind::Ephemeral)
    } else {
        None
    }
}

/// What is said of a text that names no kind.
pub open spec fn invalid_kind_message(t: Seq<char>) -> Seq<char> {
    "Invalid memory kind: "@ + t
        + ". Must be one of: decision, task, invariant, blocker, ephemeral"@
}

impl MemoryKind {
    /// The stored name of the kind.
    pub open spec fn text(self) -> Seq<char> {
        match self {
            MemoryKind::Decision => "decision"@,
            MemoryKind::Task => "task"@,
            MemoryKind::Invariant => "invariant"@,
            MemoryKind::Blocker => "blocker"@,
            MemoryKind::Ephemeral => "ephemeral"@,
        }
    }

    /// The prefix of the identifiers made for memories of the kind.
    pub open spec fn id_prefix(self) -> Seq<char> {
        match self {
            MemoryKind::Decision => "DEC"@,
            MemoryKind::Task => "TSK"@,
            MemoryKind::Invariant => "INV"@,
            MemoryKind::Blocker => "BLK"@,
            MemoryKind::Ephemeral => "EPH"@,
        }
    }

    /// The stored name of the kind.
    pub fn as_str(&self) -> (res: &'static str)
        ensures
            res@ == self.text(),
    {
        match self {
            MemoryKind::Decision => "decision",
            MemoryKind::Task => "task",
            MemoryKind::Invariant => "invariant",
            MemoryKind::Blocker => "blocker",
            MemoryKind::Ephemeral => "ephemeral",
        }
    }

    /// The prefix of the identifiers made for memories of the kind.
    pub fn prefix(&self) -> (res: &'static str)
        ensures
            res@ == self.id_prefix(),
    {
        match self {
            MemoryKind::Decision => "DEC",
            MemoryKind::Task => "TSK",
            MemoryKind::Invariant => "INV",
            MemoryKind::Blocker => "BLK",
            MemoryKind::Ephemeral => "EPH",
        }
    }

    /// Reads a kind from its name, in any case and with any white space around it.
    pub fn from_str(s: &str) -> (res: Result<MemoryKind, String>)
        ensures
            match kind_named(normal_form(s@)) {
                Some(kind) => res == Ok::<MemoryKind, String>(kind),
                None => res is Err && res->Err_0@ == invalid_kind_message(normal_form(s@)),
            },
    {
        let lower = to_lowercase(s);
        let t = trim(lower.as_str());
        if same_text(t, "decision") {
            Ok(MemoryKind::Decision)
        } else if same_text(t, "task") {
            Ok(MemoryKind::Task)
        } else if same_text(t, "invariant") {
            Ok(MemoryKind::Invariant)
        } else if same_text(t, "blocker") {
            Ok(MemoryKind::Blocker)
        } else if same_text(t, "ephemeral") {
            Ok(MemoryKind::Ephemeral)
        } else {
            let mut message = String::from_str("Invalid memory kind: ");
            message.append(t);
            message.append(". Must be one of: decision, task, invariant, blocker, ephemeral");
            Err(message)
        }
    }
}

/// Where a memory stands in its life.
#[derive(Debug, Clone, Copy, PartialEq, Eq, Structural)]
pub enum MemoryStatus {
    Active,
    Superseded,
    Resolved,
    Ephemeral,
}

/// The state that a text in normal form names.
pub open spec fn status_named(t: Seq<char>) -> Option<MemoryStatus> {
    if t == "active"@ {
        Some(MemoryStatus::Active)
    } else if t == "superseded"@ {
        Some(MemoryStatus::Superseded)
    } else if t == "resolved"@ {
        Some(MemoryStatus::Resolved)
    } else if t == "ephemeral"@ {
        Some(MemoryStatus::Ephemeral)
    } else {
        None
    }
}

/// What is said of a text that names no state.
pub open spec fn invalid_status_message(t: Seq<char>) -> Seq<char> {
    "Invalid memory status: "@ + t
        + ". Must be one of: active, superseded, resolved, ephemeral"@
}

impl MemoryStatus {
    /// The stored name of the state.
    pub open spec fn text(self) -> Seq<char> {
        match self {
            MemoryStatus::Active => "active"@,
            MemoryStatus::Superseded => "superseded"@,
            MemoryStatus::Resolved => "resolved"@,
            MemoryStatus::Ephemeral => "ephemeral"@,
        }
    }

    /// The stored name of the state.
    pub fn as_str(&self) -> (res: &'static str)
        ensures
            res@ == self.text(),
    {
        match self {
            MemoryStatus::Active => "active",
            MemoryStatus::Superseded => "superseded",
            MemoryStatus::Resolved => "resolved",
            MemoryStatus::Ephemeral => "ephemeral",
        }
    }

    /// Reads a state from its name, in any case and with any white space around it.
    pub fn from_str(s: &str) -> (res: Result<MemoryStatus, String>)
        ensures
            match status_named(normal_form(s@)) {
                Some(status) => res == Ok::<MemoryStatus, String>(status),
                None => res is Err && res->Err_0@ == invalid_status_message(normal_form(s@)),
            },
    {
        let lower = to_lowercase(s);
        let t = trim(lower.as_str());
        if same_text(t, "active") {
            Ok(MemoryStatus::Active)
        } else if same_text(t, "superseded") {
            Ok(MemoryStatus::Superseded)
        } else if same_text(t, "resolved") {
            Ok(MemoryStatus::Resolved)
        } else if same_text(t, "ephemeral") {
            Ok(MemoryStatus::Ephemeral)
        } else {
            let mut message = String::from_str("Invalid memory status: ");
            message.append(t);
            message.append(". Must be one of: active, superseded, resolved, ephemeral");
            Err(message)
        }
    }
}

/// What an edge between two memories says, read from its source to its target.
#[derive(Debug, Clone, Copy, PartialEq, Eq, Hash, Structural)]
pub enum RelationType {
    Supersedes,
    DependsOn,
    Blocks,
    References,
}

/// The edge type that a text in normal form names.
pub open spec fn relation_named(t: Seq<char>) -> Option<RelationType> {
    if t == "supersedes"@ {
        Some(RelationType::Supersedes)
    } else if t == "depends_on"@ || t == "dependson"@ || t == "depends"@ {
        Some(RelationType::DependsOn)
    } else if t == "blocks"@ || t == "block"@ {
        Some(RelationType::Blocks)
    } else if t == "references"@ || t == "reference"@ {
        Some(RelationType::References)
    } else {
        None
    }
}

/// What is said of a text that names no edge type.
pub open spec fn invalid_relation_message(t: Seq<char>) -> Seq<char> {
    "Invalid relation type: "@ + t
        + ". Must be one of: supersedes, depends_on, blocks, references"@
}

impl RelationType {
    /// The stored name of the edge type.
    pub open spec fn text(self) -> Seq<char> {
        match self {
            RelationType::Supersedes => "supersedes"@,
            RelationType::DependsOn => "depends_on"@,
            RelationType::Blocks => "blocks"@,
            RelationType::References => "references"@,
        }
    }

    /// The name of the edge read from its target to its source.
    pub open spec fn inverse_text(self) -> Seq<char> {
        match self {
            RelationType::Supersedes => "superseded_by"@,
            RelationType::DependsOn => "depended_on_by"@,
            RelationType::Blocks => "blocked_by"@,
            RelationType::References => "referenced_by"@,
        }
    }

    /// The stored name of the edge type.
    pub fn as_str(&self) -> (res: &'static str)
        ensures
            res@ == self.text(),
    {
        match self {
            RelationType::Supersedes => "supersedes",
            RelationType::DependsOn => "depends_on",
            RelationType::Blocks => "blocks",
            RelationType::References => "references",
        }
    }

    /// The name of the edge read from its target to its source.
    pub fn inverse(&self) -> (res: &'static str)
        ensures
            res@ == self.inverse_text(),
    {
        match self {
            RelationType::Supersedes => "superseded_by",
            RelationType::DependsOn => "depended_on_by",
            RelationType::Blocks => "blocked_by",
            RelationType::References => "referenced_by",
        }
    }

    /// Reads an edge type from its name or a short form of it, in any case and
    /// with any white space around it.
    pub fn from_str(s: &str) -> (res: Result<RelationType, String>)
        ensures
            match relation_named(normal_form(s@)) {
                Some(relation) => res == Ok::<RelationType, String>(relation),
                None => res is Err && res->Err_0@ == invalid_relation_message(normal_form(s@)),
            },
    {
        let lower = to_lowercase(s);
        let t = trim(lower.as_str());
        if same_text(t, "supersedes") {
            Ok(RelationType::Supersedes)
        } else if same_text(t, "depends_on") || same_text(t, "dependson") || same_text(
            t,
            "depends",
        ) {
            Ok(RelationType::DependsOn)
        } else if same_text(t, "blocks") || same_text(t, "block") {
            Ok(RelationType::Blocks)
        } else if same_text(t, "references") || same_text(t, "reference") {
            Ok(RelationType::References)
        } else {
            let mut message = String::from_str("Invalid relation type: ");
            message.append(t);
            message.append(". Must be one of: supersedes, depends_on, blocks, references");
            Err(message)
        }
    }
}

/// On which side of an edge a memory stands.
#[derive(Debug, Clone, Copy, PartialEq, Eq, Hash, Structural)]
pub enum EdgeDirection {
    Outgoing,
    Incoming,
}

impl Default for EdgeDirection {
    fn default() -> (res: EdgeDirection)
        ensures
            res == EdgeDirection::Outgoing,
    {
        EdgeDirection::Outgoing
    }
}

/// The text of an optional string.
pub open spec fn opt_text(s: Option<String>) -> Option<Seq<char>> {
    match s {
        Some(s) => Some(s@),
        None => None,
    }
}

/// A node of the graph.
#[derive(Debug)]
pub struct Memory {
    pub id: String,
    pub kind: MemoryKind,
    pub title: String,
    pub body: String,
    pub tags: Option<String>,
    pub status: MemoryStatus,
    pub session_id: Option<String>,
    pub created_at: String,
    pub updated_at: String,
}

/// The value of a [`Memory`].
#[verifier::ext_equal]
pub ghost struct MemoryView {
    pub id: Seq<char>,
    pub kind: MemoryKind,
    pub title: Seq<char>,
    pub body: Seq<char>,
    pub tags: Option<Seq<char>>,
    pub status: MemoryStatus,
    pub session_id: Option<Seq<char>>,
    pub created_at: Seq<char>,
    pub updated_at: Seq<char>,
}

impl View for Memory {
    type V = MemoryView;

    open spec fn view(&self) -> MemoryView {
        MemoryView {
            id: self.id@,
            kind: self.kind,
            title: self.title@,
            body: self.body@,
            tags: opt_text(self.tags),
            status: self.status,
            session_id: opt_text(self.session_id),
            created_at: self.created_at@,
            updated_at: self.updated_at@,
        }
    }
}

/// A copy of an optional string.
pub fn clone_opt(s: &Option<String>) -> (res: Option<String>)
    ensures
        res == *s,
{
    match s {
        Some(s) => Some(s.clone()),
        None => None,
    }
}

impl Clone for Memory {
    fn clone(&self) -> (res: Memory)
        ensures
            res == *self,
    {
        Memory {
            id: self.id.clone(),
            kind: self.kind,
            title: self.title.clone(),
            body: self.body.clone(),
            tags: clone_opt(&self.tags),
            status: self.status,
            session_id: clone_opt(&self.session_id),
            created_at: self.created_at.clone(),
            updated_at: self.updated_at.clone(),
        }
    }
}

/// A memory's neighbour: the other end of one of its edges.
#[derive(Debug)]
pub struct RelatedEntity {
    pub relation_type: RelationType,
    pub target_id: String,
    pub target_title: Option<String>,
    pub target_kind: Option<MemoryKind>,
    pub target_status: Option<MemoryStatus>,
    pub direction: EdgeDirection,
}

/// The value of a [`RelatedEntity`].
#[verifier::ext_equal]
pub ghost struct RelatedView {
    pub relation_type: RelationType,
    pub target_id: Seq<char>,
    pub target_title: Option<Seq<char>>,
    pub target_kind: Option<MemoryKind>,
    pub target_status: Option<MemoryStatus>,
    pub direction: EdgeDirection,
}

impl View for RelatedEntity {
    type V = RelatedView;

    open spec fn view(&self) -> RelatedView {
        RelatedView {
            relation_type: self.relation_type,
            target_id: self.target_id@,
            target_title: opt_text(self.target_title),
            target_kind: self.target_kind,
            target_status: self.target_status,
            direction: self.direction,
        }
    }
}

impl Clone for RelatedEntity {
    fn clone(&self) -> (res: RelatedEntity)
        ensures
            res == *self,
    {
        RelatedEntity {
            relation_type: self.relation_type,
            target_id: self.target_id.clone(),
            target_title: clone_opt(&self.target_title),
            target_kind: self.target_kind,
            target_status: self.target_status,
            direction: self.direction,
        }
    }
}

/// A memory that a search found, with its neighbours.
#[derive(Debug, Clone)]
pub struct MemorySearchResult {
    pub memory: Memory,
    /// The score that the search gave, as the bits of a binary64 number.
    pub rank: u64,
    pub relations: Vec<RelatedEntity>,
}

/// The value of a [`MemorySearchResult`].
#[verifier::ext_equal]
pub ghost struct SearchResultView {
    pub memory: MemoryView,
    pub rank: u64,
    pub relations: Seq<RelatedView>,
}

impl View for MemorySearchResult {
    type V = SearchResultView;

    open spec fn view(&self) -> SearchResultView {
        SearchResultView {
            memory: self.memory@,
            rank: self.rank,
            relations: self.relations@.map_values(|r: RelatedEntity| r@),
        }
    }
}

/// Something worth keeping from a session.
#[derive(Debug, Clone)]
pub struct SessionLearning {
    pub title: String,
    pub body: String,
    pub tags: Option<String>,
    pub kind: MemoryKind,
}

/// The value of a [`SessionLearning`].
#[verifier::ext_equal]
pub ghost struct LearningView {
    pub title: Seq<char>,
    pub body: Seq<char>,
    pub tags: Option<Seq<char>>,
    pub kind: MemoryKind,
}

impl View for SessionLearning {
    type V = LearningView;

    open spec fn view(&self) -> LearningView {
        LearningView {
            title: self.title@,
            body: self.body@,
            tags: opt_text(self.tags),
            kind: self.kind,
        }
    }
}

/// The kind of a learning that names none.
pub fn default_learning_kind() -> (res: MemoryKind)
    ensures
        res == MemoryKind::Decision,
{
    MemoryKind::Decision
}

/// An edge of the graph.
#[derive(Debug)]
pub struct MemoryRelation {
    pub source_id: String,
    pub target_id: String,
    pub relation_type: RelationType,
    pub created_at: String,
}

/// The value of a [`MemoryRelation`].
#[verifier::ext_equal]
pub ghost struct RelationView {
    pub source_id: Seq<char>,
    pub target_id: Seq<char>,
    pub relation_type: RelationType,
    pub created_at: Seq<char>,
}

impl View for MemoryRelation {
    type V = RelationView;

    open spec fn view(&self) -> RelationView {
        RelationView {
            source_id: self.source_id@,
            target_id: self.target_id@,
            relation_type: self.relation_type,
            created_at: self.created_at@,
        }
    }
}

impl Clone for MemoryRelation {
    fn clone(&self) -> (res: MemoryRelation)
        ensures
            res == *self,
    {
        MemoryRelation {
            source_id: self.source_id.clone(),
            target_id: self.target_id.clone(),
            relation_type: self.relation_type,
            created_at: self.created_at.clone(),
        }
    }
}

/// The rows of the graph's two tables, each in the order of insertion.
#[derive(Debug, Clone)]
pub struct ExportData {
    pub memories: Vec<Memory>,
    pub relations: Vec<MemoryRelation>,
}

/// How much the graph holds.
#[derive(Debug, Clone)]
pub struct DatabaseStats {
    pub total_memories: i64,
    pub active_memories: i64,
    pub superseded_memories: i64,
    pub resolved_memories: i64,
    pub ephemeral_memories: i64,
    pub total_relations: i64,
    /// The number of edges of each type that occurs, by the type's name in
    /// alphabetical order.
    pub relations_by_type: Vec<(String, i64)>,
}

/// Every kind is read back from its stored name.
pub proof fn law_kind_round_trip(kind: MemoryKind)
    ensures
        kind_named(normal_form(kind.text())) == Some(kind),
{
    reveal_strlit("decision");
    reveal_strlit("task");
    reveal_strlit("invariant");
    reveal_strlit("blocker");
    reveal_strlit("ephemeral");
    lemma_plain_text_is_normal(kind.text());
}

/// Every state is read back from its stored name.
pub proof fn law_status_round_trip(status: MemoryStatus)
    ensures
        status_named(normal_form(status.text())) == Some(status),
{
    reveal_strlit("active");
    reveal_strlit("superseded");
    reveal_strlit("resolved");
    reveal_strlit("ephemeral");
    lemma_plain_text_is_normal(status.text());
}

/// Every edge type is read back from its stored name.
pub proof fn law_relation_round_trip(relation: RelationType)
    ensures
        relation_named(normal_form(relation.text())) == Some(relation),
{
    reveal_strlit("supersedes");
    reveal_strlit("depends_on");
    reveal_strlit("dependson");
    reveal_strlit("depends");
    reveal_strlit("blocks");
    reveal_strlit("block");
    reveal_strlit("references");
    reveal_strlit("reference");
    lemma_plain_text_is_normal(relation.text());
}

/// A text of lowercase letters and underscores is its own normal form.
proof fn lemma_plain_text_is_normal(t: Seq<char>)
    requires
        t.len() > 0,
        forall|i: int| 0 <= i < t.len() ==> ('a' <= #[trigger] t[i] && t[i] <= 'z') || t[i] == '_',
    ensures
        normal_form(t) == t,
{
    assert(is_ascii_text(t));
    assert(t.map_values(|c: char| ascii_lower(c)) =~= t);
    assert(!white_space(t[0]));
    assert(!white_space(t.last()));
}

} // verus!

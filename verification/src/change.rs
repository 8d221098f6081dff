//! Changes of the graph, as values and as the SQL statements that store them.

use crate::models::{clone_opt, opt_text, Memory, MemoryRelation, MemoryStatus};
use crate::tables::ChangeView;
use vstd::prelude::*;
use vstd::string::*;

verus! {

/// One change of the graph, to be made in the database.
#[derive(Debug)]
pub enum Change {
    /// A new memory.
    Insert { memory: Memory },
    /// A new state of the memory `id`.
    SetStatus { id: String, status: MemoryStatus, at: String },
    /// A new state and a new body of the memory `id`.
    Rewrite { id: String, status: MemoryStatus, body: String, at: String },
    /// The memory `id` goes, and its edges with it.
    Delete { id: String },
    /// An edge, in place of one with the same ends and type.
    PutRelation { relation: MemoryRelation },
    /// The embedding of the memory `id`, as a JSON array.
    PutEmbedding { id: String, vector: String },
}

impl View for Change {
    type V = ChangeView;

    open spec fn view(&self) -> ChangeView {
        match self {
            Change::Insert { memory } => ChangeView::Insert { memory: memory@ },
            Change::SetStatus { id, status, at } => ChangeView::SetStatus {
                id: id@,
                status: *status,
                at: at@,
            },
            Change::Rewrite { id, status, body, at } => ChangeView::Rewrite {
                id: id@,
                status: *status,
                body: body@,
                at: at@,
            },
            Change::Delete { id } => ChangeView::Delete { id: id@ },
            Change::PutRelation { relation } => ChangeView::PutRelation { relation: relation@ },
            Change::PutEmbedding { id, vector } => ChangeView::PutEmbedding {
                id: id@,
                vector: vector@,
            },
        }
    }
}

/// A statement with its parameters, in the order of their numbers.
#[derive(Debug)]
pub struct Statement {
    pub sql: &'static str,
    pub params: Vec<Option<String>>,
}

/// The parameters of a statement as texts.
pub open spec fn param_texts(params: Seq<Option<String>>) -> Seq<Option<Seq<char>>> {
    params.map_values(|p: Option<String>| opt_text(p))
}

impl ChangeView {
    /// The statement that makes the change.
    pub open spec fn sql(self) -> Seq<char> {
        match self {
            ChangeView::Insert { memory } =>
                "INSERT INTO memories (id, kind, title, body, tags, status, session_id, created_at, updated_at) VALUES (?1, ?2, ?3, ?4, ?5, ?6, ?7, ?8, ?9)"@,
            ChangeView::SetStatus { id, status, at } =>
                "UPDATE memories SET status = ?2, updated_at = ?3 WHERE id = ?1"@,
            ChangeView::Rewrite { id, status, body, at } =>
                "UPDATE memories SET status = ?2, body = ?3, updated_at = ?4 WHERE id = ?1"@,
            ChangeView::Delete { id } => "DELETE FROM memories WHERE id = ?1"@,
            ChangeView::PutRelation { relation } =>
                "INSERT OR REPLACE INTO memory_relations (source_id, target_id, relation_type, created_at) VALUES (?1, ?2, ?3, ?4)"@,
            ChangeView::PutEmbedding { id, vector } =>
                "INSERT OR REPLACE INTO memories_vec (id, embedding) VALUES (?1, ?2)"@,
        }
    }

    /// The parameters of that statement.
    pub open spec fn params(self) -> Seq<Option<Seq<char>>> {
        match self {
            ChangeView::Insert { memory } => seq![
                Some(memory.id),
                Some(memory.kind.text()),
                Some(memory.title),
                Some(memory.body),
                memory.tags,
                Some(memory.status.text()),
                memory.session_id,
                Some(memory.created_at),
                Some(memory.updated_at),
            ],
            ChangeView::SetStatus { id, status, at } => seq![
                Some(id),
                Some(status.text()),
                Some(at),
            ],
            ChangeView::Rewrite { id, status, body, at } => seq![
                Some(id),
                Some(status.text()),
                Some(body),
                Some(at),
            ],
            ChangeView::Delete { id } => seq![Some(id)],
            ChangeView::PutRelation { relation } => seq![
                Some(relation.source_id),
                Some(relation.target_id),
                Some(relation.relation_type.text()),
                Some(relation.created_at),
            ],
            ChangeView::PutEmbedding { id, vector } => seq![Some(id), Some(vector)],
        }
    }
}

impl Change {
    /// The statement that makes the change.
    pub fn statement(&self) -> (res: Statement)
        ensures
            res.sql@ == self@.sql(),
            param_texts(res.params@) == self@.params(),
    {
        match self {
            Change::Insert { memory } => {
                let params: Vec<Option<String>> = vec![
                    Some(memory.id.clone()),
                    Some(memory.kind.as_str().to_owned()),
                    Some(memory.title.clone()),
                    Some(memory.body.clone()),
                    clone_opt(&memory.tags),
                    Some(memory.status.as_str().to_owned()),
                    clone_opt(&memory.session_id),
                    Some(memory.created_at.clone()),
                    Some(memory.updated_at.clone()),
                ];
                proof {
                    assert(param_texts(params@) =~= self@.params());
                }
                Statement {
                    sql: "INSERT INTO memories (id, kind, title, body, tags, status, session_id, created_at, updated_at) VALUES (?1, ?2, ?3, ?4, ?5, ?6, ?7, ?8, ?9)",
                    params,
                }
            },
            Change::SetStatus { id, status, at } => {
                let params: Vec<Option<String>> = vec![
                    Some(id.clone()),
                    Some(status.as_str().to_owned()),
                    Some(at.clone()),
                ];
                proof {
                    assert(param_texts(params@) =~= self@.params());
                }
                Statement {
                    sql: "UPDATE memories SET status = ?2, updated_at = ?3 WHERE id = ?1",
                    params,
                }
            },
            Change::Rewrite { id, status, body, at } => {
                let params: Vec<Option<String>> = vec![
                    Some(id.clone()),
                    Some(status.as_str().to_owned()),
                    Some(body.clone()),
                    Some(at.clone()),
                ];
                proof {
                    assert(param_texts(params@) =~= self@.params());
                }
                Statement {
                    sql: "UPDATE memories SET status = ?2, body = ?3, updated_at = ?4 WHERE id = ?1",
                    params,
                }
            },
            Change::Delete { id } => {
                let params: Vec<Option<String>> = vec![Some(id.clone())];
                proof {
                    assert(param_texts(params@) =~= self@.params());
                }
                Statement { sql: "DELETE FROM memories WHERE id = ?1", params }
            },
            Change::PutRelation { relation } => {
                let params: Vec<Option<String>> = vec![
                    Some(relation.source_id.clone()),
                    Some(relation.target_id.clone()),
                    Some(relation.relation_type.as_str().to_owned()),
                    Some(relation.created_at.clone()),
                ];
                proof {
                    assert(param_texts(params@) =~= self@.params());
                }
                Statement {
                    sql: "INSERT OR REPLACE INTO memory_relations (source_id, target_id, relation_type, created_at) VALUES (?1, ?2, ?3, ?4)",
                    params,
                }
            },
            Change::PutEmbedding { id, vector } => {
                let params: Vec<Option<String>> = vec![Some(id.clone()), Some(vector.clone())];
                proof {
                    assert(param_texts(params@) =~= self@.params());
                }
                Statement {
                    sql: "INSERT OR REPLACE INTO memories_vec (id, embedding) VALUES (?1, ?2)",
                    params,
                }
            },
        }
    }
}

} // verus!

use memdag::models::{
    default_learning_kind, EdgeDirection, MemoryKind, MemoryStatus, RelationType,
};

#[test]
fn kinds_are_read_from_any_case() {
    for kind in [
        MemoryKind::Decision,
        MemoryKind::Task,
        MemoryKind::Invariant,
        MemoryKind::Blocker,
        MemoryKind::Ephemeral,
    ] {
        assert_eq!(MemoryKind::from_str(kind.as_str()), Ok(kind));
        let loud = format!(" \t{}\u{a0}\n", kind.as_str().to_uppercase());
        assert_eq!(MemoryKind::from_str(&loud), Ok(kind));
    }
    assert_eq!(
        MemoryKind::from_str(" Rumour "),
        Err("Invalid memory kind: rumour. Must be one of: decision, task, invariant, blocker, ephemeral".to_string())
    );
    assert_eq!(
        MemoryKind::from_str("TÂCHE"),
        Err("Invalid memory kind: tâche. Must be one of: decision, task, invariant, blocker, ephemeral".to_string())
    );
}

#[test]
fn kinds_have_prefixes() {
    assert_eq!(MemoryKind::Decision.prefix(), "DEC");
    assert_eq!(MemoryKind::Task.prefix(), "TSK");
    assert_eq!(MemoryKind::Invariant.prefix(), "INV");
    assert_eq!(MemoryKind::Blocker.prefix(), "BLK");
    assert_eq!(MemoryKind::Ephemeral.prefix(), "EPH");
    assert_eq!(default_learning_kind(), MemoryKind::Decision);
}

#[test]
fn states_are_read_back() {
    for status in [
        MemoryStatus::Active,
        MemoryStatus::Superseded,
        MemoryStatus::Resolved,
        MemoryStatus::Ephemeral,
    ] {
        assert_eq!(MemoryStatus::from_str(status.as_str()), Ok(status));
        assert_eq!(MemoryStatus::from_str(&status.as_str().to_uppercase()), Ok(status));
    }
    assert_eq!(
        MemoryStatus::from_str("open"),
        Err("Invalid memory status: open. Must be one of: active, superseded, resolved, ephemeral".to_string())
    );
}

#[test]
fn edge_types_are_read_back_and_inverted() {
    for (relation, inverse) in [
        (RelationType::Supersedes, "superseded_by"),
        (RelationType::DependsOn, "depended_on_by"),
        (RelationType::Blocks, "blocked_by"),
        (RelationType::References, "referenced_by"),
    ] {
        assert_eq!(RelationType::from_str(relation.as_str()), Ok(relation));
        assert_eq!(relation.inverse(), inverse);
    }
    assert_eq!(RelationType::from_str("DependsOn"), Ok(RelationType::DependsOn));
    assert_eq!(RelationType::from_str("depends"), Ok(RelationType::DependsOn));
    assert_eq!(RelationType::from_str("block"), Ok(RelationType::Blocks));
    assert_eq!(RelationType::from_str("Reference "), Ok(RelationType::References));
    assert_eq!(
        RelationType::from_str("likes"),
        Err("Invalid relation type: likes. Must be one of: supersedes, depends_on, blocks, references".to_string())
    );
    assert_eq!(EdgeDirection::default(), EdgeDirection::Outgoing);
}

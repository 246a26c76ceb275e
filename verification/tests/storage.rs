use engram::paths::{join_path, parent_path};
use engram::storage::content::{
    concept_to_map, entity_to_map, episode_to_map, preference_to_map, procedure_to_map, task_to_map,
    Content, FieldValue,
};
use engram::storage::record::{
    format_record_id_key, Concept, Entity, Episode, Preference, PreferenceDirection, Procedure,
    RecordId, RecordKey, SignalTier, Task, TaskStatus, Weight,
};
use engram::storage::statements::{
    agent_statement, as_of_current, clear_statements, current_statement, entities_statement,
    episode_at_statement, episode_version_statement, episodes_statement, ledger_statement,
    newest_version_statement, no_row_written, padded, pending_statement, ping_result,
    ping_statement, preferences_statement, procedures_statement, relate_statement, relation_weight, semantic_statement, upsert_concept, upsert_entity,
    uuid_v4_like, versioned_read_failure, write_episode, write_preference, write_procedure,
    write_task,
};
use engram::time::{Timestamp, MAX_SECONDS};

const NOW: Timestamp = Timestamp { seconds: 1_750_000_000, nanos: 0 };

fn names(c: &Content) -> Vec<&str> {
    c.fields.iter().map(|f| f.name.as_str()).collect()
}

fn field<'a>(c: &'a Content, name: &str) -> &'a FieldValue {
    &c.fields.iter().find(|f| f.name == name).unwrap().value
}

fn episode() -> Episode {
    Episode {
        id: None,
        agent_id: "a".to_string(),
        org_id: None,
        user_id: Some("u".to_string()),
        content: "c".to_string(),
        content_type: "conversation".to_string(),
        embedding: Some(vec![1, 2]),
        importance: Weight { millionths: 500_000 },
        entities: Some(vec![RecordId::new("entity", "x")]),
        valid_time_start: NOW,
        valid_time_end: None,
        transaction_time: Some(NOW),
        consolidated: false,
        consolidated_at: None,
        summary: None,
        source_tier: SignalTier::Tier2Structured,
        metadata: "{}".to_string(),
    }
}

fn entity() -> Entity {
    Entity {
        id: Some(RecordId::new("entity", "e1")),
        agent_id: "a".to_string(),
        org_id: None,
        canonical_name: "Sarah".to_string(),
        aliases: vec!["S".to_string()],
        entity_type: "person".to_string(),
        attributes: "{}".to_string(),
        embedding: None,
        confidence: Weight { millionths: 1 },
        confidence_tier: SignalTier::Tier4Implied,
        anchor_record: None,
        created_at: None,
        last_updated: None,
        disambiguation_log: None,
    }
}

#[test]
fn tiers_have_numbers() {
    for n in 1..=5u8 {
        let tier = SignalTier::from_number(n).unwrap();
        assert_eq!(tier.number(), n);
        assert_eq!(u8::from(tier), n);
        assert_eq!(SignalTier::from_stored(n as i64).unwrap(), tier);
    }
    assert_eq!(SignalTier::from_number(6).unwrap_err(), "invalid signal tier: 6");
    assert_eq!(SignalTier::from_stored(-1).unwrap_err(), "invalid signal tier: -1");
    assert_eq!(SignalTier::from_stored(257).unwrap_err(), "invalid signal tier: 257");
}

#[test]
fn stored_names_round_trip() {
    for d in [PreferenceDirection::Positive, PreferenceDirection::Negative] {
        assert_eq!(PreferenceDirection::from_name(d.as_str()), Some(d));
    }
    for s in [TaskStatus::Pending, TaskStatus::Triggered, TaskStatus::Completed, TaskStatus::Cancelled] {
        assert_eq!(TaskStatus::from_name(s.as_str()), Some(s));
    }
    assert!(TaskStatus::from_name("done").is_none());
    assert!(PreferenceDirection::from_name("").is_none());
}

#[test]
fn record_ids_have_texts() {
    assert_eq!(RecordId::new("episode", "k").text(), "episode:k");
    assert_eq!(format_record_id_key(&RecordKey::Number(-7)), "-7");
    assert_eq!(format_record_id_key(&RecordKey::Number(i64::MIN)), "-9223372036854775808");
    assert_eq!(format_record_id_key(&RecordKey::Uuid("u-1".to_string())), "u-1");
    assert_eq!(format_record_id_key(&RecordKey::Composite("[1]".to_string())), "[1]");
    assert!(!RecordId::new("a", "1").same(&RecordId { table: "a".to_string(), key: RecordKey::Number(1) }));
}

#[test]
fn weights_are_kept_in_range() {
    assert_eq!(Weight::thousandths(250), Weight { millionths: 250_000 });
    assert_eq!(Weight { millionths: -5 }.clamped(), Weight { millionths: 0 });
    assert_eq!(Weight { millionths: 2_000_000 }.clamped(), Weight { millionths: 1_000_000 });
}

#[test]
fn fields_without_a_value_are_left_out() {
    let c = episode_to_map(&episode());
    assert!(names(&c).contains(&"user_id") && !names(&c).contains(&"org_id"));
    assert!(!names(&c).contains(&"summary") && !names(&c).contains(&"valid_time_end"));
    assert!(matches!(field(&c, "source_tier"), FieldValue::Int(2)));
    assert!(matches!(field(&c, "embedding"), FieldValue::Reals(v) if v == &vec![1, 2]));
    assert!(matches!(field(&c, "entities"), FieldValue::Records(v) if v[0].text() == "entity:x"));
    assert!(matches!(field(&c, "consolidated"), FieldValue::Bool(false)));
}

#[test]
fn entities_are_written_with_their_times() {
    let c = entity_to_map(&entity(), NOW);
    assert!(matches!(field(&c, "created_at"), FieldValue::Time(t) if *t == NOW));
    assert!(matches!(field(&c, "last_updated"), FieldValue::Time(t) if *t == NOW));
    assert!(matches!(field(&c, "attributes"), FieldValue::Json(s) if s == "{}"));
    assert!(matches!(field(&c, "aliases"), FieldValue::Texts(v) if v == &vec!["S".to_string()]));
    assert!(matches!(field(&c, "confidence"), FieldValue::Real(w) if w.millionths == 1));
}

#[test]
fn records_are_written_under_their_id() {
    let w = write_episode(&episode(), "fresh");
    assert_eq!(w.statement, "UPSERT episode:fresh CONTENT $content");
    assert_eq!(w.reread, "SELECT * FROM episode:fresh");
    assert_eq!(w.id.text(), "episode:fresh");
    let w = upsert_entity(&entity(), "fresh", NOW);
    assert_eq!(w.statement, "UPSERT entity:e1 CONTENT $content");
    let concept = Concept {
        id: None,
        agent_id: "a".to_string(),
        org_id: None,
        content: "c".to_string(),
        embedding: None,
        confidence: Weight { millionths: 1 },
        source_tier: SignalTier::Tier1Authoritative,
        reinforcement_count: 3,
        last_reinforced: None,
        decay_rate: Weight { millionths: 2 },
        inferred: true,
        inference_chain: None,
        valid_time_start: NOW,
        valid_time_end: None,
        transaction_time: None,
    };
    assert_eq!(upsert_concept(&concept, "k").id.text(), "concept:k");
    assert!(matches!(field(&concept_to_map(&concept), "inferred"), FieldValue::Bool(true)));
    let preference = Preference {
        id: None,
        agent_id: "a".to_string(),
        org_id: None,
        user_id: None,
        category: "format".to_string(),
        content: "c".to_string(),
        direction: PreferenceDirection::Negative,
        strength: Weight { millionths: 1 },
        source_tier: SignalTier::Tier1Authoritative,
        evidence_count: 1,
        last_reinforced: None,
        created_at: None,
        valid_time_start: NOW,
        valid_time_end: None,
        transaction_time: None,
    };
    assert_eq!(write_preference(&preference, "k").id.text(), "preference:k");
    assert!(matches!(
        field(&preference_to_map(&preference), "direction"),
        FieldValue::Text(s) if s == "negative"
    ));
    let procedure = Procedure {
        id: None,
        agent_id: "a".to_string(),
        org_id: None,
        name: "n".to_string(),
        procedure_type: "t".to_string(),
        content: "c".to_string(),
        embedding: None,
        trigger_patterns: vec![],
        usage_count: 2,
        last_used: None,
        created_at: None,
    };
    assert_eq!(write_procedure(&procedure, "k").id.text(), "procedure:k");
    assert!(matches!(field(&procedure_to_map(&procedure), "usage_count"), FieldValue::Int(2)));
    let task = Task {
        id: None,
        agent_id: "a".to_string(),
        org_id: None,
        user_id: None,
        content: "c".to_string(),
        trigger_type: "time".to_string(),
        trigger_value: "v".to_string(),
        status: TaskStatus::Triggered,
        created_at: None,
        triggered_at: None,
    };
    assert_eq!(write_task(&task, "k").id.text(), "task:k");
    assert!(matches!(
        field(&task_to_map(&task), "status"),
        FieldValue::Text(s) if s == "triggered"
    ));
    assert_eq!(
        no_row_written("write_task").message(),
        "storage error: write_task: SELECT after UPSERT returned no rows"
    );
}

#[test]
fn fresh_keys_differ() {
    let key = uuid_v4_like(0x1234_5678_9abc_def0, 0);
    assert_eq!(key, "0000000000000000123456789abcdef0");
    assert_eq!(key.len(), 32);
    assert_ne!(uuid_v4_like(1, 7), uuid_v4_like(2, 7));
    assert_ne!(uuid_v4_like(1, 7), uuid_v4_like(1, 8));
}

#[test]
fn bi_temporal_reads_name_their_instant() {
    assert_eq!(
        episode_at_statement("episode:k", Timestamp { seconds: 0, nanos: 5_000_000 }),
        "SELECT * FROM episode:k VERSION d'1970-01-01T00:00:00.005+00:00'"
    );
    let last = episode_at_statement("episode:k", Timestamp { seconds: MAX_SECONDS, nanos: 0 });
    assert!(last.contains("+262142-12-31T23:59:59"), "{last}");
    assert_eq!(
        episode_version_statement("episode:k", "t"),
        "SELECT * FROM episode:k VERSION d't'"
    );
    assert_eq!(current_statement("episode:k"), "SELECT * FROM episode:k");
    assert!(versioned_read_failure("table does not exist").is_ok());
    assert_eq!(versioned_read_failure("down").unwrap_err().message(), "surreal error: down");
}

#[test]
fn bi_temporal_read_before_create_returns_none() {
    let at = |seconds| Timestamp { seconds, nanos: 0 };
    assert!(as_of_current(Some(episode()), at(NOW.seconds - 1)).is_none());
    assert!(as_of_current(Some(episode()), NOW).is_some());
    let mut untimed = episode();
    untimed.transaction_time = None;
    assert!(as_of_current(Some(untimed), NOW).is_none());
    assert!(as_of_current(None, NOW).is_none());
}

#[test]
fn statements_are_written_out() {
    assert_eq!(
        semantic_statement(5),
        "SELECT * FROM concept WHERE agent_id = $a AND embedding <|5, COSINE|> $v LIMIT $l"
    );
    assert_eq!(
        preferences_statement(true, true),
        "SELECT * FROM preference WHERE agent_id = $a AND user_id = $u AND category = $c ORDER BY last_reinforced DESC LIMIT $l"
    );
    assert_eq!(
        preferences_statement(false, false),
        "SELECT * FROM preference WHERE agent_id = $a ORDER BY last_reinforced DESC LIMIT $l"
    );
    assert_eq!(relate_statement("a:1", "r", "b:2"), "RELATE a:1->r->b:2 SET weight = $w");
    assert_eq!(relation_weight(None), Weight { millionths: 500_000 });
    assert_eq!(relation_weight(Some(Weight { millionths: 3 })), Weight { millionths: 3 });
}

#[test]
fn clear_data_does_not_drop_ledger() {
    let statements = clear_statements();
    assert_eq!(statements.len(), 13);
    assert!(statements.contains(&"DELETE episode".to_string()));
    assert!(statements.iter().all(|s| !s.contains("engram_schema")));
}

#[test]
fn embeddings_are_filled_up() {
    let v = padded(vec![7]);
    assert_eq!((v.len(), v[0], v[767]), (768, 7, 0));
    assert_eq!(padded(vec![1; 800]).len(), 800);
}

#[test]
fn a_ping_must_answer_one() {
    assert!(ping_result(Some(1)).is_ok());
    assert_eq!(ping_result(Some(2)).unwrap_err().message(), "storage error: ping returned wrong value");
    assert!(ping_result(None).is_err());
}

#[test]
fn paths_go_up_and_down() {
    assert_eq!(parent_path("/a/b/").as_deref(), Some("/a"));
    assert_eq!(parent_path("/").as_deref(), None);
    assert_eq!(parent_path("a").as_deref(), Some(""));
    assert_eq!(parent_path("").as_deref(), None);
    assert_eq!(parent_path("a//b/./c").as_deref(), Some("a//b"));
    for p in ["/a/b/", "/", "a", "", "a//b/./c", "./x", "../y/z", "/x//"] {
        let std_parent = std::path::Path::new(p).parent().map(|q| q.to_str().unwrap().to_string());
        assert_eq!(parent_path(p), std_parent, "{p}");
        let std_join = std::path::Path::new(p).join("n").to_str().unwrap().to_string();
        assert_eq!(join_path(p, "n"), std_join, "{p}");
    }
}

#[test]
fn reads_are_bound_to_an_agent() {
    for statement in [
        episodes_statement(),
        entities_statement(),
        pending_statement(),
        procedures_statement(),
    ] {
        assert!(statement.contains("WHERE agent_id = $a"), "{statement}");
    }
    assert_eq!(
        episodes_statement(),
        "SELECT * FROM episode WHERE agent_id = $a ORDER BY valid_time_start DESC LIMIT $l"
    );
    assert_eq!(
        pending_statement(),
        "SELECT * FROM task WHERE agent_id = $a AND status = 'pending' \
         AND trigger_value <= $t ORDER BY created_at ASC"
    );
    assert_eq!(agent_statement(), "SELECT agent_id FROM $start LIMIT 1");
    assert_eq!(ledger_statement(), "SELECT * FROM engram_schema ORDER BY version ASC");
    assert_eq!(
        newest_version_statement(),
        "SELECT version FROM engram_schema ORDER BY version DESC LIMIT 1"
    );
    assert_eq!(ping_statement(), "SELECT 1 AS ok FROM 1");
}

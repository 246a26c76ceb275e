use engram::storage::content::{Content, Field, FieldValue};
use engram::storage::record::{
    Concept, Entity, Episode, Preference, PreferenceDirection, Procedure, RecordId, SignalTier,
    Task, TaskStatus, Weight,
};
use engram::storage::rows::{
    concept_columns, concept_from_row, entity_from_row, episode_columns, episode_from_row,
    ledger_columns, ledger_from_row, preference_from_row, procedure_from_row, task_columns,
    task_from_row, ColumnKind,
};
use engram::storage::statements::{
    upsert_concept, upsert_entity, write_episode, write_preference, write_procedure, write_task,
    WriteRequest,
};
use engram::time::Timestamp;

const NOW: Timestamp = Timestamp { seconds: 1_750_000_000, nanos: 5 };

fn weight(millionths: i64) -> Weight {
    Weight { millionths }
}

fn decimal_weight(x: f64) -> Weight {
    Weight { millionths: (x * 1e6).round() as i64 }
}

/// The row that a table holds once a request has been carried out.
fn stored(request: WriteRequest) -> Content {
    let mut row = request.content;
    row.fields.push(Field { name: "id".to_string(), value: FieldValue::Record(request.id) });
    row
}

fn set(row: &mut Content, name: &str, value: FieldValue) {
    row.fields.push(Field { name: name.to_string(), value });
}

fn without(row: Content, name: &str) -> Content {
    Content { fields: row.fields.into_iter().filter(|f| f.name != name).collect() }
}

fn episode() -> Episode {
    Episode {
        id: None,
        agent_id: "agent-rt".to_string(),
        org_id: Some("org-1".to_string()),
        user_id: Some("user-1".to_string()),
        content: "the rain in Spain".to_string(),
        content_type: "conversation".to_string(),
        embedding: Some(vec![0.1f32.to_bits(); 768]),
        importance: decimal_weight(0.42),
        entities: None,
        valid_time_start: NOW,
        valid_time_end: None,
        transaction_time: None,
        consolidated: false,
        consolidated_at: None,
        summary: None,
        source_tier: SignalTier::Tier3Conversational,
        metadata: "{\"thread\":\"abc\",\"turn\":3}".to_string(),
    }
}

fn task() -> Task {
    Task {
        id: None,
        agent_id: "agent-rt".to_string(),
        org_id: Some("org-1".to_string()),
        user_id: Some("user-1".to_string()),
        content: "remind user about the deadline".to_string(),
        trigger_type: "time".to_string(),
        trigger_value: "2025-06-15T15:06:40+00:00".to_string(),
        status: TaskStatus::Pending,
        created_at: None,
        triggered_at: None,
    }
}

#[test]
fn round_trip_episode() {
    let row = stored(write_episode(&episode(), "k"));
    let read = episode_from_row(&row).unwrap();
    assert!(read.id.as_ref().unwrap().same(&RecordId::new("episode", "k")));
    assert_eq!(read.content, "the rain in Spain");
    assert_eq!(read.importance, decimal_weight(0.42));
    assert_eq!(read.source_tier, SignalTier::Tier3Conversational);
    assert!(read.metadata.contains("\"thread\":\"abc\""));
    assert_eq!(read.embedding.as_ref().unwrap().len(), 768);
    assert_eq!(read.org_id.as_deref(), Some("org-1"));
    assert_eq!(read.valid_time_start, NOW);
    assert!(read.entities.is_none() && read.transaction_time.is_none());
}

#[test]
fn round_trip_entity() {
    let entity = Entity {
        id: None,
        agent_id: "agent-rt".to_string(),
        org_id: Some("org-1".to_string()),
        canonical_name: "Spain".to_string(),
        aliases: vec!["España".to_string(), "ES".to_string()],
        entity_type: "location".to_string(),
        attributes: "{\"iso\":\"ES\"}".to_string(),
        embedding: Some(vec![1, 2]),
        confidence: decimal_weight(0.95),
        confidence_tier: SignalTier::Tier1Authoritative,
        anchor_record: None,
        created_at: None,
        last_updated: None,
        disambiguation_log: Some(vec!["{\"step\":\"exact-name match\"}".to_string()]),
    };
    let read = entity_from_row(&stored(upsert_entity(&entity, "k", NOW))).unwrap();
    assert!(read.id.is_some());
    assert_eq!(read.canonical_name, "Spain");
    assert_eq!(read.aliases, vec!["España", "ES"]);
    assert_eq!(read.entity_type, "location");
    assert!(read.attributes.contains("\"iso\":\"ES\""));
    assert_eq!(read.confidence, decimal_weight(0.95));
    assert_eq!(read.confidence_tier, SignalTier::Tier1Authoritative);
    assert_eq!(read.created_at, Some(NOW));
    assert_eq!(read.disambiguation_log.unwrap().len(), 1);
    assert_eq!(read.embedding, Some(vec![1, 2]));
}

#[test]
fn round_trip_concept() {
    let concept = Concept {
        id: None,
        agent_id: "agent-rt".to_string(),
        org_id: Some("org-1".to_string()),
        content: "rain tends to fall on plains".to_string(),
        embedding: Some(vec![0.2f32.to_bits(); 768]),
        confidence: decimal_weight(0.7),
        source_tier: SignalTier::Tier4Implied,
        reinforcement_count: 3,
        last_reinforced: None,
        decay_rate: decimal_weight(0.05),
        inferred: true,
        inference_chain: None,
        valid_time_start: NOW,
        valid_time_end: None,
        transaction_time: None,
    };
    let mut row = stored(upsert_concept(&concept, "k"));
    set(&mut row, "last_reinforced", FieldValue::Time(NOW));
    let read = concept_from_row(&row).unwrap();
    assert!(read.id.is_some());
    assert_eq!(read.content, "rain tends to fall on plains");
    assert_eq!(read.confidence, decimal_weight(0.7));
    assert_eq!(read.source_tier, SignalTier::Tier4Implied);
    assert_eq!(read.reinforcement_count, 3);
    assert_eq!(read.decay_rate, decimal_weight(0.05));
    assert!(read.inferred);
    assert_eq!(read.last_reinforced, Some(NOW));
}

#[test]
fn round_trip_preference() {
    let preference = Preference {
        id: None,
        agent_id: "agent-rt".to_string(),
        org_id: Some("org-1".to_string()),
        user_id: Some("user-1".to_string()),
        category: "communication".to_string(),
        content: "prefers concise responses".to_string(),
        direction: PreferenceDirection::Positive,
        strength: decimal_weight(0.8),
        source_tier: SignalTier::Tier3Conversational,
        evidence_count: 4,
        last_reinforced: None,
        created_at: None,
        valid_time_start: NOW,
        valid_time_end: None,
        transaction_time: None,
    };
    let read = preference_from_row(&stored(write_preference(&preference, "k"))).unwrap();
    assert!(read.id.is_some());
    assert_eq!(read.category, "communication");
    assert_eq!(read.content, "prefers concise responses");
    assert_eq!(read.direction, PreferenceDirection::Positive);
    assert_eq!(read.strength, decimal_weight(0.8));
    assert_eq!(read.evidence_count, 4);
}

#[test]
fn round_trip_procedure() {
    let procedure = Procedure {
        id: None,
        agent_id: "agent-rt".to_string(),
        org_id: Some("org-1".to_string()),
        name: "summarize-then-act".to_string(),
        procedure_type: "behavioral_pattern".to_string(),
        content: "1. Summarize the request. 2. Plan. 3. Act.".to_string(),
        embedding: Some(vec![0.0f32.to_bits(); 768]),
        trigger_patterns: vec!["summarize*".to_string(), "plan*".to_string()],
        usage_count: 7,
        last_used: None,
        created_at: None,
    };
    let read = procedure_from_row(&stored(write_procedure(&procedure, "k"))).unwrap();
    assert!(read.id.is_some());
    assert_eq!(read.name, "summarize-then-act");
    assert_eq!(read.procedure_type, "behavioral_pattern");
    assert_eq!(read.trigger_patterns.len(), 2);
    assert_eq!(read.usage_count, 7);
}

#[test]
fn round_trip_task() {
    let read = task_from_row(&stored(write_task(&task(), "k"))).unwrap();
    assert!(read.id.is_some());
    assert_eq!(read.content, "remind user about the deadline");
    assert_eq!(read.trigger_type, "time");
    assert_eq!(read.status, TaskStatus::Pending);
}

#[test]
fn a_row_without_a_required_field_is_refused() {
    let row = without(stored(write_episode(&episode(), "k")), "content");
    assert_eq!(
        episode_from_row(&row).unwrap_err().message(),
        "surreal error: field content is missing or of another type"
    );
}

#[test]
fn a_value_of_another_type_is_refused() {
    let mut row = stored(write_task(&task(), "k"));
    set(&mut row, "status", FieldValue::Text("asleep".to_string()));
    assert!(task_from_row(&row).unwrap_err().message().contains("field status"));
    let mut row = stored(write_episode(&episode(), "k"));
    set(&mut row, "source_tier", FieldValue::Int(6));
    assert!(episode_from_row(&row).unwrap_err().message().contains("field source_tier"));
    let mut row = stored(write_episode(&episode(), "k"));
    set(&mut row, "org_id", FieldValue::Bool(true));
    assert!(episode_from_row(&row).unwrap_err().message().contains("field org_id"));
}

#[test]
fn the_last_value_of_a_name_counts() {
    let mut row = stored(write_episode(&episode(), "k"));
    set(&mut row, "content", FieldValue::Text("v2".to_string()));
    set(&mut row, "importance", FieldValue::Real(weight(1)));
    let read = episode_from_row(&row).unwrap();
    assert_eq!(read.content, "v2");
    assert_eq!(read.importance, weight(1));
}

#[test]
fn a_malformed_ledger_row_is_refused() {
    assert!(concept_columns()
        .iter()
        .any(|c| c.name == "reinforcement_count" && c.kind == ColumnKind::Count && c.required));
    let mut row = Content { fields: vec![] };
    for (name, text) in
        [("engram_ver", "0.1.0"), ("migration", "001.surql"), ("checksum", "ab"), ("direction", "up")]
    {
        set(&mut row, name, FieldValue::Text(text.to_string()));
    }
    set(&mut row, "applied_at", FieldValue::Time(NOW));
    set(&mut row, "version", FieldValue::Int(1));
    let read = ledger_from_row(&row).unwrap();
    assert_eq!((read.version, read.migration.as_str()), (1, "001.surql"));
    assert_eq!((read.applied_at, read.direction.as_str()), (NOW, "up"));
    set(&mut row, "version", FieldValue::Int(-1));
    assert_eq!(
        ledger_from_row(&row).unwrap_err().message(),
        "schema ledger is malformed: field version is missing or of another type"
    );
}

#[test]
fn tables_have_their_columns() {
    assert_eq!(episode_columns().len(), 17);
    assert_eq!(task_columns().len(), 10);
    assert_eq!(ledger_columns().len(), 6);
    assert_eq!(episode_columns()[0].name, "id");
}

use chrono::{Duration, Utc};

use engram::memory::classifier::{
    active_layers, HeuristicQueryClassifier, KeywordSets, QueryClassifier,
};
use engram::memory::error::{IngestError, IngestResult};
use engram::memory::hits::{is_score_ge, merge_and_rerank, recency_weight, Ratio, RawHit};
use engram::memory::recall::{
    finish_recall, layer_failure, layer_query, question_failure, recall_layers, LayerQuery,
};
use engram::memory::request::RecallRequest;
use engram::memory::response::{RecallResponse, Score, SourceLayer};
use engram::memory::retrieval::{
    assemble_context_slice, episodic_hits, episodic_window, preference_hits, procedural_hits,
    prospective_hits, record_id_to_string, recall_from_lowercase, semantic_hits, truncate_excerpt,
    LayerRows,
};
use engram::storage::error::Error;
use engram::storage::record::{
    Concept, Episode, Preference, PreferenceDirection, Procedure, RecordId, SignalTier, Task,
    TaskStatus, Weight,
};
use engram::time::Timestamp;

const NOW: Timestamp = Timestamp { seconds: 1_750_000_000, nanos: 0 };
const DAY: i64 = 86_400;

fn days_ago(days: i64) -> Timestamp {
    Timestamp { seconds: NOW.seconds - days * DAY, nanos: 0 }
}

fn weight(millionths: i64) -> Weight {
    Weight { millionths }
}

fn value(r: Ratio) -> f64 {
    r.num as f64 / r.den as f64
}

fn score_value(s: Score) -> f64 {
    s.numerator as f64 / s.denominator as f64 / 1_000_000.0
}

fn hit(layer: SourceLayer, id: &str, excerpt: &str, relevance: Ratio, importance: i64, t: Timestamp) -> RawHit {
    RawHit {
        layer,
        record_id: id.to_string(),
        excerpt: excerpt.to_string(),
        relevance,
        importance: weight(importance),
        valid_time: t,
    }
}

const HALF: Ratio = Ratio { num: 1, den: 2 };
const ONE: Ratio = Ratio { num: 1, den: 1 };

fn episode(key: &str, content: &str, importance: i64, t: Timestamp) -> Episode {
    Episode {
        id: Some(RecordId::new("episode", key)),
        agent_id: "a".to_string(),
        org_id: None,
        user_id: None,
        content: content.to_string(),
        content_type: "conversation".to_string(),
        embedding: None,
        importance: weight(importance),
        entities: None,
        valid_time_start: t,
        valid_time_end: None,
        transaction_time: None,
        consolidated: false,
        consolidated_at: None,
        summary: None,
        source_tier: SignalTier::Tier3Conversational,
        metadata: "{}".to_string(),
    }
}

fn concept(key: &str, content: &str, confidence: i64, t: Timestamp) -> Concept {
    Concept {
        id: Some(RecordId::new("concept", key)),
        agent_id: "a".to_string(),
        org_id: None,
        content: content.to_string(),
        embedding: Some(vec![0; 768]),
        confidence: weight(confidence),
        source_tier: SignalTier::Tier2Structured,
        reinforcement_count: 1,
        last_reinforced: Some(NOW),
        decay_rate: weight(10_000),
        inferred: false,
        inference_chain: None,
        valid_time_start: t,
        valid_time_end: None,
        transaction_time: None,
    }
}

fn procedure(name: &str, content: &str, triggers: &[&str]) -> Procedure {
    Procedure {
        id: Some(RecordId::new("procedure", name)),
        agent_id: "a".to_string(),
        org_id: None,
        name: name.to_string(),
        procedure_type: "tool_definition".to_string(),
        content: content.to_string(),
        embedding: Some(vec![0; 768]),
        trigger_patterns: triggers.iter().map(|s| s.to_string()).collect(),
        usage_count: 1,
        last_used: Some(NOW),
        created_at: Some(NOW),
    }
}

fn task(key: &str, content: &str) -> Task {
    Task {
        id: Some(RecordId::new("task", key)),
        agent_id: "a".to_string(),
        org_id: None,
        user_id: None,
        content: content.to_string(),
        trigger_type: "time".to_string(),
        trigger_value: "2026-06-05T00:00:00Z".to_string(),
        status: TaskStatus::Pending,
        created_at: Some(NOW),
        triggered_at: None,
    }
}

fn preference(key: &str, content: &str) -> Preference {
    Preference {
        id: Some(RecordId::new("preference", key)),
        agent_id: "a".to_string(),
        org_id: None,
        user_id: Some("user".to_string()),
        category: "format".to_string(),
        content: content.to_string(),
        direction: PreferenceDirection::Positive,
        strength: weight(800_000),
        source_tier: SignalTier::Tier3Conversational,
        evidence_count: 1,
        last_reinforced: Some(NOW),
        created_at: Some(NOW),
        valid_time_start: NOW,
        valid_time_end: None,
        transaction_time: None,
    }
}

/// The rows of a store that holds one list per layer.
#[derive(Default)]
struct Rows {
    episodes: Vec<Episode>,
    concepts: Vec<Concept>,
    procedures: Vec<Procedure>,
    tasks: Vec<Task>,
    preferences: Vec<Preference>,
}

fn recall_with(
    classifier: &HeuristicQueryClassifier,
    req: &RecallRequest,
    mut rows: Rows,
) -> IngestResult<RecallResponse> {
    req.validate()?;
    let classified =
        if req.types.is_empty() { Some(classifier.classify(&req.query)) } else { None };
    let layers = recall_layers(req, classified)?;
    let mut results = Vec::new();
    for layer in &layers {
        results.push(Ok(match layer_query(req, *layer, NOW) {
            LayerQuery::Episodes { limit, .. } => {
                rows.episodes.truncate(limit as usize);
                LayerRows::Episodes(std::mem::take(&mut rows.episodes))
            }
            LayerQuery::Concepts { .. } => LayerRows::Concepts(std::mem::take(&mut rows.concepts)),
            LayerQuery::Procedures { .. } => {
                LayerRows::Procedures(std::mem::take(&mut rows.procedures))
            }
            LayerQuery::Tasks { .. } => LayerRows::Tasks(std::mem::take(&mut rows.tasks)),
            LayerQuery::Preferences { .. } => {
                LayerRows::Preferences(std::mem::take(&mut rows.preferences))
            }
        }));
    }
    finish_recall(req, layers, results, NOW)
}

fn recall(req: RecallRequest, rows: Rows) -> IngestResult<RecallResponse> {
    recall_with(&HeuristicQueryClassifier::new(), &req, rows)
}

fn classify(query: &str) -> Vec<SourceLayer> {
    HeuristicQueryClassifier::new().classify(query).unwrap()
}

#[test]
fn classifier_picks_episodic_on_when_question() {
    assert!(classify("When did we last discuss Atlas?").contains(&SourceLayer::Episodic));
}

#[test]
fn classifier_picks_procedural_on_how_question() {
    assert!(classify("How do I deploy the staging service?").contains(&SourceLayer::Procedural));
}

#[test]
fn classifier_picks_preference_on_prefer_question() {
    assert!(classify("What format does Sarah prefer?").contains(&SourceLayer::Preference));
}

#[test]
fn classifier_picks_prospective_on_todo_question() {
    assert!(classify("What's next on my todo list?").contains(&SourceLayer::Prospective));
}

#[test]
fn classifier_returns_empty_for_unrelated_query() {
    let layers = classify("xyzzy plugh foobar");
    assert!(
        layers.is_empty(),
        "unmatched query should leave the orchestrator to fall back to all layers, got {layers:?}"
    );
}

#[test]
fn classifier_picks_multiple_layers_for_mixed_query() {
    let layers = classify("When did Sarah say she prefers the new format?");
    assert!(layers.contains(&SourceLayer::Episodic));
    assert!(layers.contains(&SourceLayer::Preference));
}

#[test]
fn classifier_with_empty_keywords_returns_empty() {
    let c = HeuristicQueryClassifier::with_keywords(KeywordSets::empty());
    assert!(c.classify("When did we discuss this?").unwrap().is_empty());
}

#[test]
fn a_question_of_taste_concerns_three_layers() {
    assert_eq!(
        classify("what does Sarah prefer?"),
        vec![SourceLayer::Episodic, SourceLayer::Semantic, SourceLayer::Preference]
    );
}

#[test]
fn the_lowercase_question_decides() {
    let c = HeuristicQueryClassifier::new();
    assert!(c.classify_lowercase("when").contains(&SourceLayer::Episodic));
    assert!(!c.classify_lowercase("WHEN").contains(&SourceLayer::Episodic));
    assert!(!c.classifier_id().is_empty());
}

#[test]
fn recency_weight_is_one_for_recent() {
    let w = value(recency_weight(NOW, NOW));
    assert!(w > 0.99, "now should be 1.0, got {w}");
}

#[test]
fn recency_weight_decays_for_old_records() {
    let w_old = value(recency_weight(days_ago(90), NOW));
    let w_new = value(recency_weight(NOW, NOW));
    assert!(w_old < w_new, "older record should have lower recency");
    assert!(w_old > 0.1, "old weight should still exceed floor");
}

#[test]
fn recency_weight_is_one_for_future_dated_record() {
    let w = value(recency_weight(days_ago(-7), NOW));
    assert!((w - 1.0).abs() < 1e-6, "future-dated records get full recency");
}

#[test]
fn recency_halves_after_thirty_days() {
    assert!((value(recency_weight(days_ago(30), NOW)) - 0.5).abs() < 1e-9);
    assert!((value(recency_weight(days_ago(90), NOW)) - 0.25).abs() < 1e-9);
    let today = Utc::now();
    let then = today - Duration::days(30);
    let ts = |t: chrono::DateTime<Utc>| Timestamp {
        seconds: t.timestamp(),
        nanos: t.timestamp_subsec_nanos(),
    };
    assert!((value(recency_weight(ts(then), ts(today))) - 0.5).abs() < 1e-9);
}

#[test]
fn truncate_excerpt_respects_codepoint_boundary() {
    let s = "a".repeat(300);
    let t = truncate_excerpt(&s, 100);
    assert_eq!(t.chars().count(), 101);
    assert!(t.ends_with('…'));
}

#[test]
fn truncate_excerpt_passthrough_when_short() {
    let s = "short";
    assert_eq!(truncate_excerpt(s, 100), "short");
}

#[test]
fn excerpts_are_cut_between_characters() {
    assert_eq!(truncate_excerpt("ééé", 2), "éé…");
    assert_eq!(truncate_excerpt("ééé", 3), "ééé");
}

#[test]
fn merge_and_rerank_caps_at_max_results() {
    let hits: Vec<RawHit> = (0..20)
        .map(|i| {
            hit(
                SourceLayer::Episodic,
                &format!("ep:{i}"),
                &format!("content {i}"),
                HALF,
                500_000,
                days_ago(i),
            )
        })
        .collect();
    let merged = merge_and_rerank(hits, 5, NOW);
    assert_eq!(merged.len(), 5);
    assert_eq!(merged[0].record_id, "ep:0");
}

#[test]
fn merge_and_rerank_dedupes_by_layer_and_id() {
    let hits = vec![
        hit(SourceLayer::Episodic, "ep:1", "first", HALF, 500_000, NOW),
        hit(SourceLayer::Episodic, "ep:1", "second", HALF, 900_000, NOW),
    ];
    let merged = merge_and_rerank(hits, 10, NOW);
    assert_eq!(merged.len(), 1);
    assert_eq!(merged[0].excerpt, "second");
}

#[test]
fn layers_keep_their_own_records() {
    let hits = vec![
        hit(SourceLayer::Episodic, "x:1", "first", HALF, 500_000, NOW),
        hit(SourceLayer::Semantic, "x:1", "second", HALF, 600_000, NOW),
        hit(SourceLayer::Episodic, "x:1", "third", HALF, 500_000, NOW),
    ];
    let merged = merge_and_rerank(hits, 10, NOW);
    let excerpts: Vec<&str> = merged.iter().map(|h| h.excerpt.as_str()).collect();
    assert_eq!(excerpts, vec!["second", "first"]);
}

#[test]
fn a_score_is_the_product_of_its_parts() {
    let h = hit(SourceLayer::Episodic, "x:1", "e", Ratio { num: 3, den: 4 }, 800_000, days_ago(30));
    assert!((score_value(h.score(NOW)) - 0.3).abs() < 1e-9);
    let low = hit(SourceLayer::Episodic, "x:2", "e", HALF, -800_000, NOW);
    assert!(is_score_ge(h.score(NOW), low.score(NOW)));
}

#[test]
fn assemble_context_slice_is_empty_when_no_hits() {
    let r = assemble_context_slice(
        Vec::new(),
        vec![SourceLayer::Episodic, SourceLayer::Semantic],
        NOW,
    );
    assert!(r.context.is_empty());
    assert!(r.sources.is_empty());
    assert_eq!(r.query_types, vec![SourceLayer::Episodic, SourceLayer::Semantic]);
}

#[test]
fn assemble_context_slice_formats_header_and_lines() {
    let hits = vec![
        hit(SourceLayer::Episodic, "ep:1", "the meeting", ONE, 1_000_000, NOW),
        hit(SourceLayer::Preference, "pr:1", "prefers short", ONE, 1_000_000, NOW),
    ];
    let r = assemble_context_slice(
        hits,
        vec![SourceLayer::Episodic, SourceLayer::Preference],
        NOW,
    );
    assert!(r.context.starts_with("Memory context (2 hits across 2 layers)"));
    assert!(r.context.contains("episodic: the meeting"));
    assert!(r.context.contains("preference: prefers short"));
    assert_eq!(r.sources.len(), 2);
}

#[test]
fn the_context_is_written_out() {
    let hits = vec![hit(SourceLayer::Semantic, "c:1", "", ONE, 1_000_000, NOW)];
    let r = assemble_context_slice(hits, vec![SourceLayer::Semantic], NOW);
    assert_eq!(r.context, "Memory context (1 hit across 1 layer):\nsemantic: <no content>");
    assert_eq!(r.sources[0].record_id, "c:1");
    assert_eq!(r.sources[0].valid_time, NOW);
}

#[test]
fn recall_rejects_empty_query() {
    let r = recall(RecallRequest::new("agent-x", "  "), Rows::default());
    assert!(r.is_err(), "empty query must be rejected");
}

#[test]
fn recall_rejects_empty_agent() {
    let r = recall(RecallRequest::new("", "hi"), Rows::default());
    assert!(r.is_err(), "empty agent_id must be rejected");
}

#[test]
fn recall_returns_episodic_records() {
    let rows = Rows {
        episodes: vec![
            episode("1", "Important: Atlas ships Friday.", 900_000, NOW),
            episode("2", "We had coffee Tuesday.", 500_000, NOW),
        ],
        ..Rows::default()
    };
    let resp = recall(RecallRequest::new("a", "When did Atlas ship?"), rows).expect("recall");
    assert!(resp.sources.iter().any(|s| s.layer == SourceLayer::Episodic));
    assert!(resp.query_types.contains(&SourceLayer::Episodic));
    assert!(!resp.context.is_empty());
    assert!(resp.context.contains("episodic:"));
}

#[test]
fn recall_prefers_recent_high_importance_episode() {
    let rows = Rows {
        episodes: vec![
            episode("1", "old but important: the moon is made of cheese", 950_000, days_ago(30)),
            episode("2", "recent and notable: the moon is made of rock", 700_000, NOW),
        ],
        ..Rows::default()
    };
    let resp =
        recall(RecallRequest::new("a", "When did we discuss the moon?"), rows).expect("recall");
    let sources = &resp.sources;
    assert!(sources.len() >= 2, "should have both episodes, got {sources:?}");
    assert!(sources[0].excerpt.contains("rock"), "the more recent episode should rank first");
    assert!(is_score_ge(sources[0].score, sources[1].score));
}

#[test]
fn recall_filters_episodic_by_entity_name() {
    let rows = Rows {
        episodes: vec![
            episode("1", "Sarah Chen reviewed the Atlas spec.", 500_000, NOW),
            episode("2", "We discussed the budget on Tuesday.", 500_000, NOW),
        ],
        ..Rows::default()
    };
    let resp = recall(
        RecallRequest::new("a", "When did we discuss the budget?")
            .with_entities(vec!["Sarah".to_string()]),
        rows,
    )
    .expect("recall");
    let episodes_returned: Vec<&str> = resp
        .sources
        .iter()
        .filter(|s| s.layer == SourceLayer::Episodic)
        .map(|s| s.excerpt.as_str())
        .collect();
    assert!(episodes_returned.iter().all(|e| e.contains("Sarah")));
    assert!(!episodes_returned.iter().any(|e| e.contains("budget")));
    assert_eq!(episodes_returned.len(), 1);
}

#[test]
fn recall_returns_semantic_records() {
    let rows = Rows {
        concepts: vec![concept("1", "Atlas ships on Friday", 800_000, NOW)],
        ..Rows::default()
    };
    let resp =
        recall(RecallRequest::new("a", "What do I know about Atlas?"), rows).expect("recall");
    assert!(resp.sources.iter().any(|s| s.layer == SourceLayer::Semantic));
    assert!(resp.query_types.contains(&SourceLayer::Semantic));
}

#[test]
fn recall_returns_procedural_records() {
    let rows = Rows {
        procedures: vec![procedure(
            "deploy-staging",
            "Run `deploy.sh --env=staging` to deploy the staging service.",
            &["deploy", "staging"],
        )],
        ..Rows::default()
    };
    let resp = recall(RecallRequest::new("a", "How do I deploy the staging service?"), rows)
        .expect("recall");
    assert!(resp.query_types.contains(&SourceLayer::Procedural));
    assert!(resp
        .sources
        .iter()
        .any(|s| s.layer == SourceLayer::Procedural && s.excerpt.contains("deploy.sh")));
}

#[test]
fn recall_returns_prospective_records() {
    let rows = Rows {
        tasks: vec![task("1", "Email the Q3 report to the leadership team")],
        ..Rows::default()
    };
    let resp =
        recall(RecallRequest::new("a", "What's next on my todo list?"), rows).expect("recall");
    assert!(resp
        .sources
        .iter()
        .any(|s| s.layer == SourceLayer::Prospective && s.excerpt.contains("Q3 report")));
}

#[test]
fn recall_returns_preference_records() {
    let rows = Rows {
        preferences: vec![preference("1", "Prefers bullet points over prose.")],
        ..Rows::default()
    };
    let resp = recall(
        RecallRequest::new("a", "What format does the user prefer?").with_user_id("user"),
        rows,
    )
    .expect("recall");
    assert!(resp
        .sources
        .iter()
        .any(|s| s.layer == SourceLayer::Preference && s.excerpt.contains("bullet points")));
}

#[test]
fn recall_mixed_query_surfaces_multiple_layers() {
    let rows = Rows {
        episodes: vec![episode(
            "1",
            "When we discussed Atlas, Sarah said she prefers bullet points.",
            550_000,
            NOW,
        )],
        procedures: vec![procedure(
            "atlas-deploy",
            "Use `make atlas-deploy` to ship the Atlas release.",
            &["atlas", "deploy"],
        )],
        preferences: vec![preference("1", "Prefers bullet points over prose for Atlas specs.")],
        ..Rows::default()
    };
    let resp = recall(
        RecallRequest::new("a", "When did Sarah say she prefers the Atlas format?")
            .with_user_id("user"),
        rows,
    )
    .expect("recall");
    let layers: Vec<SourceLayer> = resp.sources.iter().map(|s| s.layer).collect();
    assert!(layers.contains(&SourceLayer::Episodic), "episodic missing from {layers:?}");
    assert!(layers.contains(&SourceLayer::Preference), "preference missing from {layers:?}");
}

#[test]
fn recall_empty_store_returns_empty_context() {
    let resp = recall(RecallRequest::new("a", "When did anything happen?"), Rows::default())
        .expect("recall");
    assert!(resp.context.is_empty(), "no records → empty context");
    assert!(resp.sources.is_empty(), "no records → no sources");
    assert!(!resp.query_types.is_empty());
}

#[test]
fn recall_with_empty_classifier_falls_back_to_all_layers() {
    let c = HeuristicQueryClassifier::with_keywords(KeywordSets::empty());
    let resp = recall_with(&c, &RecallRequest::new("a", "anything goes"), Rows::default())
        .expect("recall");
    assert_eq!(resp.query_types.len(), 5);
}

#[test]
fn recall_with_caller_types_overrides_classifier() {
    let resp = recall(
        RecallRequest::new("a", "When did anything happen?")
            .with_types(vec![SourceLayer::Preference]),
        Rows::default(),
    )
    .expect("recall");
    assert_eq!(resp.query_types, vec![SourceLayer::Preference]);
}

#[test]
fn recall_caps_results_at_max_results() {
    let episodes = (0..20)
        .map(|i| episode(&format!("{i}"), &format!("When we discussed item {i}."), 550_000, NOW))
        .collect();
    let resp = recall(
        RecallRequest::new("a", "When did we discuss anything?").with_max_results(3),
        Rows { episodes, ..Rows::default() },
    )
    .expect("recall");
    assert!(resp.sources.len() <= 3, "max_results should be honoured");
    assert_eq!(resp.sources.len(), 3);
}

#[test]
fn recall_context_slice_includes_layer_label() {
    let rows = Rows {
        episodes: vec![episode("1", "Important: the Atlas deadline is Friday.", 900_000, NOW)],
        ..Rows::default()
    };
    let resp =
        recall(RecallRequest::new("a", "When is the Atlas deadline?"), rows).expect("recall");
    assert!(resp.context.contains("episodic:"), "context: {resp:?}");
    assert!(resp.context.contains("Friday"));
    assert!(resp.context.contains("Memory context"));
}

#[test]
fn recall_sources_carry_provenance() {
    let rows = Rows {
        episodes: vec![episode("1", "Important: the Atlas deadline is Friday.", 900_000, NOW)],
        ..Rows::default()
    };
    let resp =
        recall(RecallRequest::new("a", "When is the Atlas deadline?"), rows).expect("recall");
    assert!(!resp.sources.is_empty());
    for src in &resp.sources {
        assert!(!src.record_id.is_empty(), "record_id should be set");
        assert!(src.record_id.starts_with("episode:"));
        let score = score_value(src.score);
        assert!(score > 0.0, "score should be > 0 for a real hit, got {score}");
        assert!(score <= 1.0, "score should be in [0, 1], got {score}");
    }
}

#[test]
fn active_layers_are_distinct() {
    let twice = vec![SourceLayer::Semantic, SourceLayer::Episodic, SourceLayer::Semantic];
    assert_eq!(
        active_layers(&vec![], &twice),
        vec![SourceLayer::Semantic, SourceLayer::Episodic]
    );
    assert_eq!(active_layers(&twice, &vec![]), twice);
    assert_eq!(active_layers(&vec![], &vec![]).len(), 5);
}

#[test]
fn each_layer_is_asked_for_its_own() {
    let req = RecallRequest::new("a", "q").with_max_results(7).with_user_id("u");
    assert!(matches!(
        layer_query(&req, SourceLayer::Episodic, NOW),
        LayerQuery::Episodes { agent_id, limit: 28 } if agent_id == "a"
    ));
    assert!(matches!(
        layer_query(&req, SourceLayer::Semantic, NOW),
        LayerQuery::Concepts { text, limit: 7, .. } if text == "q"
    ));
    assert!(matches!(
        layer_query(&req, SourceLayer::Procedural, NOW),
        LayerQuery::Procedures { limit: 7, .. }
    ));
    assert!(matches!(
        layer_query(&req, SourceLayer::Prospective, NOW),
        LayerQuery::Tasks { now, .. } if now == NOW
    ));
    assert!(matches!(
        layer_query(&req, SourceLayer::Preference, NOW),
        LayerQuery::Preferences { user_id: Some(u), limit: 7, .. } if u == "u"
    ));
    assert_eq!(episodic_window(1), 20);
}

#[test]
fn the_first_failure_is_reported() {
    let req = RecallRequest::new("a", "q");
    let down = || Error::Surreal("down".to_string());
    let e = finish_recall(
        &req,
        vec![SourceLayer::Episodic, SourceLayer::Semantic, SourceLayer::Preference],
        vec![
            Ok(LayerRows::Episodes(vec![])),
            Err(layer_failure(SourceLayer::Semantic, down())),
            Err(layer_failure(SourceLayer::Preference, down())),
        ],
        NOW,
    )
    .unwrap_err();
    assert_eq!(e.message(), "storage error during retrieve_semantic: surreal error: down");
    for (layer, stage) in [
        (SourceLayer::Episodic, "retrieve_episodic"),
        (SourceLayer::Procedural, "retrieve_procedural"),
        (SourceLayer::Prospective, "retrieve_prospective"),
        (SourceLayer::Preference, "retrieve_preference"),
    ] {
        assert!(layer_failure(layer, down()).message().contains(stage));
    }
    let e = question_failure("m", IngestError::Other("x".to_string()));
    assert_eq!(e.message(), "embedding model m failed: pipeline error: x");
    let e = recall_layers(&req, Some(Err(IngestError::Other("c".to_string())))).unwrap_err();
    assert_eq!(e.message(), "pipeline error: c");
}

#[test]
fn the_time_range_filters_episodes_and_concepts() {
    let req = RecallRequest::new("a", "q").with_time_range(days_ago(10), days_ago(5));
    let rows = vec![
        LayerRows::Episodes(vec![
            episode("in", "x", 500_000, days_ago(7)),
            episode("early", "x", 500_000, days_ago(11)),
            episode("late", "x", 500_000, days_ago(5)),
        ]),
        LayerRows::Concepts(vec![
            concept("in", "x", 500_000, days_ago(10)),
            concept("out", "x", 500_000, NOW),
        ]),
    ];
    let layers = vec![SourceLayer::Episodic, SourceLayer::Semantic];
    let resp = recall_from_lowercase(&req, "q", layers, &rows, NOW);
    let mut ids: Vec<&str> = resp.sources.iter().map(|s| s.record_id.as_str()).collect();
    ids.sort();
    assert_eq!(ids, vec!["concept:in", "episode:in"]);
}

#[test]
fn episodes_match_names_in_whatever_case() {
    let rows = vec![episode("1", "met ÅSA", 500_000, NOW), episode("2", "met Bob", 500_000, NOW)];
    let hits = episodic_hits(&rows, &vec!["åsa".to_string()], &None, 10, NOW);
    assert_eq!(hits.len(), 1);
    assert_eq!(hits[0].record_id, "episode:1");
    assert_eq!(hits[0].relevance, HALF);
    assert_eq!(episodic_hits(&rows, &vec![], &None, 1, NOW).len(), 1);
}

#[test]
fn concepts_are_as_relevant_as_they_rank() {
    let rows = vec![concept("1", "x", 700_000, NOW), concept("2", "y", 700_000, NOW)];
    let hits = semantic_hits(&rows, &None, 4);
    assert!(value(hits[0].relevance) > value(hits[1].relevance));
    assert!((value(hits[0].relevance) - 1.0).abs() < 1e-9);
    assert_eq!(hits[0].importance, weight(700_000));
}

#[test]
fn triggered_procedures_come_first() {
    let rows = vec![procedure("a", "x", &["Deploy"]), procedure("b", "y", &["other"])];
    let hits = procedural_hits(&rows, "how to deploy", NOW);
    assert!((value(hits[0].relevance) - 1.0).abs() < 1e-9);
    assert!((value(hits[1].relevance) - 0.65).abs() < 1e-9);
}

#[test]
fn tasks_are_capped_and_preferences_are_not() {
    let tasks = vec![task("1", "x"), task("2", "y")];
    assert_eq!(prospective_hits(&tasks, 1, NOW).len(), 1);
    let prefs = vec![preference("1", "x"), preference("2", "y")];
    let hits = preference_hits(&prefs, NOW);
    assert_eq!(hits.len(), 2);
    assert_eq!(hits[0].importance, weight(800_000));
}

#[test]
fn a_missing_id_is_named_by_its_table() {
    assert_eq!(record_id_to_string(&Some(RecordId::new("task", "k")), "episode"), "task:k");
    let unknown = record_id_to_string(&None, "episode");
    assert!(unknown.starts_with("episode:"), "{unknown}");
}

#[test]
fn every_source_is_of_a_layer_that_was_asked() {
    let rows = || Rows {
        episodes: vec![episode("1", "We met.", 500_000, NOW)],
        tasks: vec![task("1", "Call back.")],
        preferences: vec![preference("1", "Short answers.")],
        ..Rows::default()
    };
    let asked = vec![SourceLayer::Preference, SourceLayer::Episodic];
    let resp =
        recall(RecallRequest::new("a", "anything").with_types(asked.clone()), rows()).expect("recall");
    assert_eq!(resp.query_types, asked);
    assert_eq!(resp.sources.len(), 2);
    assert!(resp.sources.iter().all(|s| resp.query_types.contains(&s.layer)));
}

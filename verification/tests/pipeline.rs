use std::collections::HashSet;

use engram::memory::embedding::DeterministicEmbedding;
use engram::memory::entities::{
    entity_of_mention, link_by_name, merge_mention, SessionEntities,
};
use engram::memory::error::{IngestError, IngestResult};
use engram::memory::extraction::{ExtractedMention, HeuristicEntityExtractor, ReferenceKind};
use engram::memory::pipeline::{
    add_given_mentions, check_embedding, extraction_error, IngestAction, IngestPhase, Ingestion,
    IngestionResult,
};
use engram::memory::request::{ContentType, StoreRequest};
use engram::memory::response::EpisodeRecord;
use engram::memory::scoring::TierBasedImportanceScorer;
use engram::storage::error::Error;
use engram::storage::record::{Entity, Episode, RecordId, SignalTier, Weight};
use engram::time::Timestamp;

const NOW: Timestamp = Timestamp { seconds: 1_750_000_000, nanos: 0 };

/// A store that keeps its records in memory. What is written inside a
/// transaction goes when the transaction is cancelled.
#[derive(Default)]
struct Store {
    entities: Vec<Entity>,
    episodes: Vec<Episode>,
    relations: Vec<(String, String, String, i64)>,
    keys: u32,
    /// The store as it was when the transaction was opened.
    open: Option<Box<Store>>,
    commits: u32,
}

impl Store {
    fn fresh_id(&mut self, table: &str) -> RecordId {
        self.keys += 1;
        RecordId::new(table, &format!("k{}", self.keys))
    }

    fn resolve_entity(&self, agent: &str, name: &str) -> Vec<Entity> {
        self.entities
            .iter()
            .filter(|e| e.agent_id == agent && e.canonical_name == name)
            .map(|e| e.copy())
            .collect()
    }

    fn upsert_entity(&mut self, mut e: Entity) -> Entity {
        if e.id.is_none() {
            e.id = Some(self.fresh_id("entity"));
        }
        let id = e.id.as_ref().unwrap().text();
        self.entities.retain(|x| x.id.as_ref().unwrap().text() != id);
        self.entities.push(e.copy());
        e
    }

    fn begin(&mut self) {
        assert!(self.open.is_none());
        self.open = Some(Box::new(Store {
            entities: self.entities.iter().map(|e| e.copy()).collect(),
            episodes: self.episodes.iter().map(|e| e.copy()).collect(),
            relations: self.relations.clone(),
            keys: self.keys,
            open: None,
            commits: self.commits,
        }));
    }

    fn commit(&mut self) {
        assert!(self.open.is_some());
        self.open = None;
        self.commits += 1;
    }

    fn cancel(&mut self) {
        *self = *self.open.take().unwrap();
    }

    fn write_episode(&mut self, mut e: Episode) -> Episode {
        if e.id.is_none() {
            e.id = Some(self.fresh_id("episode"));
        }
        self.episodes.push(e.copy());
        e
    }
}

struct Pipeline {
    store: Store,
    session: SessionEntities,
}

fn pipeline() -> Pipeline {
    Pipeline { store: Store::default(), session: SessionEntities::new() }
}

fn zeros() -> Vec<u32> {
    vec![0; 768]
}

impl Pipeline {
    fn ingest(&mut self, req: StoreRequest) -> IngestResult<IngestionResult> {
        self.ingest_with(req, None)
    }

    /// Runs an ingestion; the step of the given name fails.
    fn ingest_with(&mut self, req: StoreRequest, failing: Option<&str>) -> IngestResult<IngestionResult> {
        let model = DeterministicEmbedding;
        let fails = |step: &str| failing == Some(step);
        let down = || Error::Surreal("down".to_string());
        let (mut run, mut action) = Ingestion::begin(
            req,
            HeuristicEntityExtractor.extractor_id(),
            model.model_id(),
            model.dimension(),
            NOW,
        )?;
        loop {
            action = match action {
                IngestAction::Extract { content, tier } => {
                    if fails("extract") {
                        run.extracted(Err(IngestError::Other("no words".to_string())))
                    } else {
                        let found = HeuristicEntityExtractor.extract(&content, tier);
                        run.extracted(found)
                    }
                }
                IngestAction::Begin => {
                    if fails("begin") {
                        run.opened(Err(down()))
                    } else {
                        self.store.begin();
                        run.opened(Ok(()))
                    }
                }
                IngestAction::LookUp { agent_id, canonical_name } => {
                    if fails("look up") {
                        run.looked_up(Err(down()), &self.session)
                    } else {
                        let rows = self.store.resolve_entity(&agent_id, &canonical_name);
                        run.looked_up(Ok(rows), &self.session)
                    }
                }
                IngestAction::Upsert(entity) => match run.phase() {
                    IngestPhase::Anchoring => {
                        if fails("anchor") {
                            run.anchor_written(Err(down()))
                        } else {
                            run.anchor_written(Ok(self.store.upsert_entity(entity)))
                        }
                    }
                    IngestPhase::Merging if fails("merge") => run.entity_written(Err(down())),
                    IngestPhase::Creating if fails("create") => run.entity_written(Err(down())),
                    _ => run.entity_written(Ok(self.store.upsert_entity(entity))),
                },
                IngestAction::Embed { content } => {
                    assert!(!content.is_empty());
                    if run.phase() == IngestPhase::EmbeddingEntity {
                        let len = if fails("embed entity") { 3 } else { 768 };
                        run.entity_embedded(Ok(vec![content.len() as u32; len]))
                    } else if fails("embed") {
                        run.embedded(Ok(vec![0; 3]))
                    } else {
                        run.embedded(Ok(zeros()))
                    }
                }
                IngestAction::Score => {
                    if fails("score") {
                        run.scored(Err(IngestError::Other("no score".to_string())))
                    } else {
                        let scorer = TierBasedImportanceScorer::new();
                        let score = scorer.score(&run.scoring_context(), NOW);
                        run.scored(score)
                    }
                }
                IngestAction::WriteEpisode(episode) => {
                    if fails("write") {
                        run.episode_written(Err(down()))
                    } else {
                        run.episode_written(Ok(self.store.write_episode(episode)))
                    }
                }
                IngestAction::Relate { from, relation, to, weight } => {
                    if fails("relate") {
                        run.related(Err(down()))
                    } else {
                        self.store.relations.push((from, relation, to, weight.millionths));
                        run.related(Ok(()))
                    }
                }
                IngestAction::Commit => {
                    if fails("commit") {
                        self.store.cancel();
                        run.committed(Err(down()), &mut self.session)
                    } else {
                        self.store.commit();
                        run.committed(Ok(()), &mut self.session)
                    }
                }
                IngestAction::Finish(result) => return Ok(result),
                IngestAction::Fail(e) => {
                    assert!(self.store.open.is_none());
                    return Err(e);
                }
                IngestAction::Cancel(e) => {
                    self.store.cancel();
                    return Err(e);
                }
            };
        }
    }
}

fn names(result: &IngestionResult) -> HashSet<String> {
    result.linked_entities().into_iter().map(|e| e.canonical_name).collect()
}

#[test]
fn pipeline_detects_conversation_content_type() {
    let req = StoreRequest::new("agent-c1", "Sarah: I told you the deadline is Friday.")
        .with_content_type(ContentType::Conversation);
    let resp = pipeline().ingest(req).expect("ingest conversation");
    assert_eq!(resp.episode.content_type, "conversation");
    assert_eq!(resp.episode.source_tier, SignalTier::Tier3Conversational);
}

#[test]
fn pipeline_detects_document_content_type() {
    let req = StoreRequest::new(
        "agent-d1",
        "From: Sarah Chen <sarah@example.com>\nSubject: Q3 OKRs\nThe OKR is: launch Atlas by Friday.",
    )
    .with_content_type(ContentType::Document);
    let resp = pipeline().ingest(req).expect("ingest document");
    assert_eq!(resp.episode.content_type, "document");
    assert_eq!(resp.episode.source_tier, SignalTier::Tier2Structured);
}

#[test]
fn pipeline_detects_assertion_content_type() {
    let req = StoreRequest::new("agent-a1", "This is my boss Sarah Chen.")
        .with_content_type(ContentType::Assertion);
    let resp = pipeline().ingest(req).expect("ingest assertion");
    assert_eq!(resp.episode.content_type, "assertion");
    assert_eq!(resp.episode.source_tier, SignalTier::Tier1Authoritative);
}

#[test]
fn pipeline_detects_tool_result_content_type() {
    let req = StoreRequest::new("agent-tr1", "tool=github.pr.list count=3 first=42")
        .with_content_type(ContentType::ToolResult);
    let resp = pipeline().ingest(req).expect("ingest tool result");
    assert_eq!(resp.episode.content_type, "tool_result");
    assert_eq!(resp.episode.source_tier, SignalTier::Tier2Structured);
}

#[test]
fn pipeline_detects_observation_content_type() {
    let req = StoreRequest::new("agent-o1", "User clicked the save button.")
        .with_content_type(ContentType::Observation);
    let resp = pipeline().ingest(req).expect("ingest observation");
    assert_eq!(resp.episode.content_type, "observation");
    assert_eq!(resp.episode.source_tier, SignalTier::Tier5Behavioral);
}

#[test]
fn pipeline_extracts_named_entities_from_conversation() {
    let req = StoreRequest::new(
        "agent-ee1",
        "Sarah Chen is the VP of Engineering at Acme. She runs the Atlas project.",
    )
    .with_content_type(ContentType::Conversation);
    let resp = pipeline().ingest(req).expect("ingest");
    let linked_names = names(&resp);
    assert!(linked_names.contains("Sarah Chen"), "expected Sarah Chen, got {linked_names:?}");
    assert!(linked_names.contains("Acme"), "expected Acme, got {linked_names:?}");
    assert!(linked_names.contains("Atlas"), "expected Atlas, got {linked_names:?}");
}

#[test]
fn pipeline_resolves_extracted_entity_types() {
    let req = StoreRequest::new("agent-ee2", "Sarah Chen lives in Berlin. Acme Corp is in Berlin.")
        .with_content_type(ContentType::Conversation);
    let resp = pipeline().ingest(req).expect("ingest");
    let entities = resp.linked_entities();
    let sarah = entities.iter().find(|e| e.canonical_name == "Sarah Chen");
    let acme = entities.iter().find(|e| e.canonical_name.starts_with("Acme"));
    let berlin = entities.iter().find(|e| e.canonical_name == "Berlin");
    assert!(sarah.is_some(), "Sarah Chen must be a linked entity");
    assert_eq!(sarah.unwrap().entity_type, "person");
    assert!(acme.is_some(), "Acme Corp must be a linked entity");
    assert_eq!(acme.unwrap().entity_type, "organization");
    assert!(berlin.is_some(), "Berlin must be a linked entity");
    assert_eq!(berlin.unwrap().entity_type, "location");
}

#[test]
fn pipeline_records_source_tier_on_extracted_mentions() {
    let req = StoreRequest::new("agent-ee3", "Sarah Chen is the VP of Engineering.")
        .with_content_type(ContentType::Assertion);
    let resp = pipeline().ingest(req).expect("ingest");
    let sarah = resp
        .linked_entities()
        .into_iter()
        .find(|e| e.canonical_name == "Sarah Chen")
        .expect("Sarah Chen");
    assert_eq!(
        sarah.confidence_tier,
        SignalTier::Tier1Authoritative,
        "Tier 1 assertion produces Tier 1-confidence entity"
    );
}

#[test]
fn pipeline_dedupes_same_entity_across_episodes() {
    let mut p = pipeline();
    let r1 = p
        .ingest(
            StoreRequest::new("agent-dedup", "Sarah Chen reviewed the spec.")
                .with_content_type(ContentType::Conversation),
        )
        .expect("r1");
    let r2 = p
        .ingest(
            StoreRequest::new("agent-dedup", "Sarah reviewed the second spec.")
                .with_content_type(ContentType::Conversation),
        )
        .expect("r2");
    assert_eq!(names(&r1), names(&r2), "both episodes should link the same entity");
    let all = p.store.resolve_entity("agent-dedup", "Sarah Chen");
    assert_eq!(all.len(), 1, "duplicate Sarah mentions merge to one entity");
    assert_eq!(all[0].aliases, vec!["Sarah Chen", "Sarah"]);
}

#[test]
fn pipeline_sets_anchor_on_tier1_assertion() {
    let mut p = pipeline();
    let resp = p
        .ingest(
            StoreRequest::new("agent-anc1", "This is my boss Sarah Chen.")
                .with_content_type(ContentType::Assertion),
        )
        .expect("ingest");
    let sarah = resp
        .linked_entities()
        .into_iter()
        .find(|e| e.canonical_name == "Sarah Chen")
        .expect("Sarah Chen");
    assert!(sarah.anchor_record.is_some(), "Tier 1 assertion sets anchor_record on the entity");
    assert!(
        sarah.anchor_record.as_ref().unwrap().same(resp.episode.id.as_ref().unwrap()),
        "anchor_record is the asserting episode's id"
    );
    let first = sarah.anchor_record.unwrap();
    let again = p
        .ingest(
            StoreRequest::new("agent-anc1", "Sarah Chen again.")
                .with_content_type(ContentType::Assertion),
        )
        .expect("again");
    let kept = again.linked_entities().into_iter().find(|e| e.canonical_name == "Sarah Chen");
    assert!(kept.unwrap().anchor_record.unwrap().same(&first), "an anchor is set once");
}

#[test]
fn pipeline_records_mention_edges_in_graph() {
    let mut p = pipeline();
    let resp = p
        .ingest(
            StoreRequest::new("agent-graph", "Sarah Chen reviewed the spec.")
                .with_content_type(ContentType::Conversation),
        )
        .expect("ingest");
    let ep = resp.episode.id.as_ref().unwrap().text();
    let edges = &p.store.relations;
    assert!(!edges.is_empty(), "the episode must have a mentions edge in the graph");
    assert!(edges.iter().all(|e| e.0 == ep && e.1 == "episode_mentions_entity" && e.3 == 700_000));
    assert_eq!(edges[0].2, resp.linked_entities[0].id.as_ref().unwrap().text());
}

#[test]
fn pipeline_embeds_normalized_content() {
    let resp = pipeline()
        .ingest(
            StoreRequest::new("agent-emb1", "Some content to embed.")
                .with_content_type(ContentType::Conversation),
        )
        .expect("ingest");
    let emb = resp.episode.embedding.as_ref().expect("episode should carry an embedding");
    assert_eq!(emb.len(), 768);
}

#[test]
fn pipeline_embeds_newly_created_entities() {
    let resp = pipeline()
        .ingest(
            StoreRequest::new("agent-emb2", "Sarah Chen reviewed the spec.")
                .with_content_type(ContentType::Conversation),
        )
        .expect("ingest");
    for entity in resp.linked_entities() {
        assert!(entity.id.is_some());
        assert!(
            entity.embedding.is_some(),
            "newly-created entity {} should have an embedding",
            entity.canonical_name
        );
    }
}

#[test]
fn a_known_entity_keeps_its_embedding() {
    let mut p = pipeline();
    p.ingest(StoreRequest::new("a", "Sarah Chen left.")).unwrap();
    let known = p.store.resolve_entity("a", "Sarah Chen")[0].embedding.clone();
    assert_eq!(known, Some(vec!["Sarah Chen".len() as u32; 768]));
    let resp = p.ingest(StoreRequest::new("a", "met Sarah again")).unwrap();
    assert_eq!(resp.linked_entities[0].aliases, vec!["Sarah Chen", "Sarah"]);
    assert_eq!(resp.linked_entities[0].embedding, known);
}

#[test]
fn a_failed_ingestion_leaves_nothing_behind() {
    let steps = [
        "extract", "begin", "look up", "embed entity", "create", "embed", "score", "write",
        "anchor", "relate", "commit",
    ];
    for step in steps {
        let mut p = pipeline();
        let req = StoreRequest::new("a", "Sarah Chen met Bob Jones.")
            .with_content_type(ContentType::Assertion);
        assert!(p.ingest_with(req, Some(step)).is_err(), "{step}");
        assert!(p.store.entities.is_empty() && p.store.episodes.is_empty(), "{step}");
        assert!(p.store.relations.is_empty() && p.store.open.is_none(), "{step}");
        assert_eq!(p.store.commits, 0, "{step}");
        assert!(p.session.list_agent_entities("a").is_empty(), "{step}");
    }
    let mut p = pipeline();
    p.ingest(StoreRequest::new("a", "Sarah Chen met Bob Jones.")).unwrap();
    assert_eq!(p.store.commits, 1);
    assert_eq!(p.session.list_agent_entities("a").len(), 2);
}

#[test]
fn a_first_name_keeps_the_anchor() {
    let mut p = pipeline();
    let first = p
        .ingest(
            StoreRequest::new("a", "This is Sarah Chen.")
                .with_content_type(ContentType::Assertion),
        )
        .unwrap();
    let resp = p.ingest(StoreRequest::new("a", "later Sarah called")).unwrap();
    let sarah = resp.linked_entities.iter().find(|e| e.canonical_name == "Sarah Chen").unwrap();
    assert!(sarah.anchor_record.as_ref().unwrap().same(first.episode.id.as_ref().unwrap()));
}

#[test]
fn a_first_name_is_matched_within_one_text() {
    let mut p = pipeline();
    let resp = p.ingest(StoreRequest::new("a", "met Sarah Chen; then Sarah left")).unwrap();
    assert_eq!(resp.linked_entities.len(), 1);
    assert_eq!(resp.linked_entities[0].aliases, vec!["Sarah Chen", "Sarah"]);
}

#[test]
fn importance_score_is_in_unit_interval() {
    let resp = pipeline()
        .ingest(
            StoreRequest::new("agent-imp1", "Hi.").with_content_type(ContentType::Conversation),
        )
        .expect("ingest");
    let s = resp.episode.importance;
    assert!((0..=1_000_000).contains(&s.millionths), "importance {s:?} out of [0,1]");
}

#[test]
fn importance_score_responds_to_explicit_priority_signal() {
    let mut p = pipeline();
    let baseline = p
        .ingest(
            StoreRequest::new("agent-imp2", "The deadline is Friday.")
                .with_content_type(ContentType::Conversation),
        )
        .expect("baseline");
    let with_signal = p
        .ingest(
            StoreRequest::new("agent-imp2", "IMPORTANT: the deadline is Friday.")
                .with_content_type(ContentType::Conversation),
        )
        .expect("with_signal");
    assert!(
        with_signal.episode.importance.millionths > baseline.episode.importance.millionths,
        "explicit 'important' signal should raise importance"
    );
}

#[test]
fn importance_score_responds_to_higher_source_tier() {
    let mut p = pipeline();
    let conv = p
        .ingest(
            StoreRequest::new("agent-imp3", "Sarah Chen is my boss.")
                .with_content_type(ContentType::Conversation),
        )
        .expect("conv");
    let assertion = p
        .ingest(
            StoreRequest::new("agent-imp3", "Sarah Chen is my boss.")
                .with_content_type(ContentType::Assertion),
        )
        .expect("assertion");
    assert!(assertion.episode.importance.millionths > conv.episode.importance.millionths);
}

#[test]
fn pipeline_writes_episode_and_entities_in_one_call() {
    let mut p = pipeline();
    let resp = p
        .ingest(
            StoreRequest::new("agent-write1", "Sarah Chen is the VP of Engineering at Acme.")
                .with_content_type(ContentType::Assertion),
        )
        .expect("ingest");
    assert_eq!(p.store.episodes.len(), 1, "exactly one episode should be written");
    assert!(p.store.episodes[0].id.as_ref().unwrap().same(resp.episode.id.as_ref().unwrap()));
    assert_eq!(p.store.resolve_entity("agent-write1", "Sarah Chen").len(), 1);
    assert_eq!(p.store.resolve_entity("agent-write1", "Acme").len(), 1);
    let ids: Vec<String> =
        resp.episode.entities.as_ref().unwrap().iter().map(|id| id.text()).collect();
    let linked: Vec<String> =
        resp.linked_entities.iter().map(|e| e.id.as_ref().unwrap().text()).collect();
    assert_eq!(ids, linked);
}

#[test]
fn episode_record_exposes_required_fields() {
    let resp = pipeline()
        .ingest(
            StoreRequest::new("agent-rec1", "Sarah Chen is the VP of Engineering.")
                .with_content_type(ContentType::Assertion),
        )
        .expect("ingest");
    let record: EpisodeRecord = resp.episode_record();
    assert!(record.episode_id.is_some(), "episode_id is set");
    assert!(record.importance.millionths >= 0 && record.importance.millionths <= 1_000_000);
    assert!(!record.entities.is_empty(), "entities list is non-empty");
    assert_eq!(record.queued_for.stage, "consolidation");
    assert_eq!(record.queued_for.priority, record.importance);
}

#[test]
fn same_entity_named_in_two_content_types_merges() {
    let mut p = pipeline();
    p.ingest(
        StoreRequest::new("agent-cross", "Sarah Chen is the VP of Engineering.")
            .with_content_type(ContentType::Conversation),
    )
    .expect("conversation");
    p.ingest(
        StoreRequest::new("agent-cross", "From: sarah.chen@acme.com — Re: Atlas timeline")
            .with_content_type(ContentType::Document),
    )
    .expect("document");
    let all = p.store.resolve_entity("agent-cross", "Sarah Chen");
    assert_eq!(all.len(), 1, "Sarah Chen from both content_types merges");
    let aliases = &all[0].aliases;
    assert!(
        aliases.iter().any(|a| a.contains("sarah.chen@acme.com")),
        "email alias should be captured from the document mention, got {aliases:?}"
    );
    assert_eq!(all[0].confidence_tier, SignalTier::Tier2Structured);
}

#[test]
fn every_content_type_round_trips_through_pipeline() {
    let types = [
        ContentType::Conversation,
        ContentType::Document,
        ContentType::ToolResult,
        ContentType::Observation,
        ContentType::Assertion,
    ];
    for ct in types {
        let mut p = pipeline();
        let resp = p
            .ingest(
                StoreRequest::new("agent-rt", "Sarah Chen is the VP of Engineering at Acme.")
                    .with_content_type(ct),
            )
            .expect("ingest");
        assert_eq!(resp.episode.content_type, ct.as_str());
        assert_eq!(p.store.episodes.len(), 1);
        assert!(p.store.episodes[0].id.as_ref().unwrap().same(resp.episode.id.as_ref().unwrap()));
    }
}

#[test]
fn empty_content_is_rejected() {
    let mut p = pipeline();
    let result = p.ingest(
        StoreRequest::new("agent-empty", "").with_content_type(ContentType::Conversation),
    );
    assert!(result.is_err(), "empty content must be rejected");
    assert!(p.store.episodes.is_empty() && p.store.entities.is_empty());
}

#[test]
fn reingesting_same_content_does_not_duplicate_episodes() {
    let mut p = pipeline();
    let mut again = || {
        p.ingest(
            StoreRequest::new("agent-rei", "Sarah Chen reviewed the spec.")
                .with_content_type(ContentType::Conversation),
        )
        .expect("ingest")
    };
    let r1 = again();
    let r2 = again();
    assert_eq!(p.store.episodes.len(), 2, "two episodes are written (no episode-level dedup)");
    assert!(!r1.episode.id.as_ref().unwrap().same(r2.episode.id.as_ref().unwrap()));
    assert_eq!(names(&r1), names(&r2));
}

#[test]
fn the_callers_entities_are_linked() {
    let mut p = pipeline();
    let resp = p
        .ingest(
            StoreRequest::new("agent-pre", "nothing to see here")
                .with_org_id("org")
                .with_preidentified_entity("Zoe")
                .with_preidentified_entity("Alice")
                .with_preidentified_entity("Zoe"),
        )
        .unwrap();
    let linked: Vec<&str> =
        resp.linked_entities.iter().map(|e| e.canonical_name.as_str()).collect();
    assert_eq!(linked, vec!["Alice", "Zoe"]);
    assert_eq!(resp.linked_entities[0].entity_type, "other");
    assert_eq!(resp.linked_entities[0].confidence, Weight { millionths: 900_000 });
    assert_eq!(resp.linked_entities[0].org_id.as_deref(), Some("org"));
}

#[test]
fn the_request_decides_over_the_scorer() {
    let mut p = pipeline();
    let resp = p
        .ingest_with(
            StoreRequest::new("a", "urgent")
                .with_importance(Weight { millionths: 123 })
                .with_valid_time(Timestamp { seconds: 7, nanos: 8 })
                .with_source_tier(SignalTier::Tier4Implied)
                .with_user_id("u")
                .with_metadata("{\"k\":1}".to_string()),
            Some("score"),
        )
        .unwrap();
    assert_eq!(resp.episode.importance, Weight { millionths: 123 });
    assert_eq!(resp.episode.valid_time_start, Timestamp { seconds: 7, nanos: 8 });
    assert_eq!(resp.episode.source_tier, SignalTier::Tier4Implied);
    assert_eq!(resp.episode.user_id.as_deref(), Some("u"));
    assert_eq!(resp.episode.metadata, "{\"k\":1}");
    assert!(resp.episode.entities.is_none());
    let plain = p.ingest(StoreRequest::new("a", "plain")).unwrap();
    assert_eq!(plain.episode.valid_time_start, NOW);
    assert_eq!(plain.episode.importance, Weight { millionths: 550_000 });
}

#[test]
fn each_failure_names_its_stage() {
    let message = |step: &str, content_type: ContentType| {
        let mut p = pipeline();
        p.ingest(StoreRequest::new("a", "Sarah Chen").with_content_type(ContentType::Observation))
            .unwrap();
        let names = if step == "create" || step == "embed entity" { "Acme" } else { "Sarah Chen" };
        p.ingest_with(
            StoreRequest::new("a", names).with_content_type(content_type),
            Some(step),
        )
        .unwrap_err()
        .message()
    };
    let conv = ContentType::Conversation;
    assert_eq!(message("extract", conv), "entity extractor heuristic-v1 failed: no words");
    assert_eq!(message("begin", conv), "storage error during begin: surreal error: down");
    assert_eq!(message("commit", conv), "storage error during commit: surreal error: down");
    assert_eq!(
        message("look up", conv),
        "storage error during disambiguate: surreal error: down"
    );
    assert_eq!(
        message("merge", conv),
        "storage error during disambiguate-merge: surreal error: down"
    );
    assert_eq!(
        message("create", conv),
        "storage error during disambiguate-create: surreal error: down"
    );
    assert_eq!(
        message("embed", conv),
        "embedding model deterministic-768-v1 failed: embedder returned 3d, expected 768d"
    );
    assert_eq!(
        message("embed entity", conv),
        "embedding model deterministic-768-v1 failed: embedder returned 3d, expected 768d"
    );
    assert_eq!(message("score", conv), "pipeline error: no score");
    assert_eq!(
        message("write", conv),
        "storage error during write_episode: surreal error: down"
    );
    assert_eq!(
        message("anchor", ContentType::Assertion),
        "storage error during write-anchor: surreal error: down"
    );
    assert_eq!(
        message("relate", conv),
        "storage error during write-relate: surreal error: down"
    );
}

fn mention(surface: &str, name: &str, tier: SignalTier) -> ExtractedMention {
    ExtractedMention {
        surface: surface.to_string(),
        canonical_name: name.to_string(),
        entity_type: "person".to_string(),
        source_tier: tier,
        confidence: Weight { millionths: 800_000 },
        reference_kind: ReferenceKind::Explicit,
    }
}

fn entity(id: &str, agent: &str, name: &str) -> Entity {
    let mut e = entity_of_mention(agent, &None, &mention(name, name, SignalTier::Tier3Conversational), vec![]);
    e.id = Some(RecordId::new("entity", id));
    e
}

#[test]
fn merging_adds_and_never_takes_away() {
    let found = entity("1", "a", "Sarah Chen");
    let merged = merge_mention(found, &mention("Sarah", "Sarah", SignalTier::Tier5Behavioral));
    assert_eq!(merged.aliases, vec!["Sarah Chen", "Sarah"]);
    assert_eq!(merged.confidence_tier, SignalTier::Tier3Conversational);
    let again = merge_mention(merged, &mention("Sarah", "Sarah", SignalTier::Tier1Authoritative));
    assert_eq!(again.aliases, vec!["Sarah Chen", "Sarah"]);
    assert_eq!(again.confidence_tier, SignalTier::Tier1Authoritative);
    assert_eq!(again.canonical_name, "Sarah Chen");
}

#[test]
fn a_session_matches_first_names_of_its_agent() {
    let mut s = SessionEntities::new();
    s.record_session_entity(entity("1", "other", "Sarah Chen"));
    s.record_session_entity(entity("2", "a", "Sarahlynn Chen"));
    s.record_session_entity(entity("3", "a", "SARAH Connor"));
    let found = |name: &str| s.find_soft_match("a", name).map(|e| e.canonical_name);
    assert_eq!(found("sarah").as_deref(), Some("SARAH Connor"));
    assert_eq!(found("Sarah Connor"), None);
    assert_eq!(found("Connor"), None);
    assert_eq!(s.find_extending("other", "sarah").unwrap().canonical_name, "Sarah Chen");
    assert!(s.find_extending("other", "SARAH").is_none());
    assert_eq!(s.list_agent_entities("a").len(), 2);
}

#[test]
fn a_session_keeps_the_latest_of_each_name_and_id() {
    let mut s = SessionEntities::default();
    s.record_session_entity(entity("1", "a", "Ada"));
    s.record_session_entity(entity("2", "a", "Bob"));
    s.record_session_entity(entity("3", "a", "Ada"));
    s.record_session_entity(entity("2", "a", "Robert"));
    let names: Vec<String> =
        s.list_agent_entities("a").into_iter().map(|e| e.canonical_name).collect();
    assert_eq!(names, vec!["Ada", "Robert"]);
}

#[test]
fn links_are_sorted_by_name() {
    let linked = link_by_name(vec![
        entity("1", "a", "b"),
        entity("2", "a", "B"),
        entity("3", "a", "b"),
        entity("4", "a", "a b"),
    ]);
    let ids: Vec<String> = linked.iter().map(|e| e.id.as_ref().unwrap().text()).collect();
    assert_eq!(ids, vec!["entity:2", "entity:4", "entity:3"]);
}

#[test]
fn given_mentions_come_last() {
    let all = add_given_mentions(
        vec![mention("x", "x", SignalTier::Tier2Structured)],
        &vec!["Alice".to_string()],
        SignalTier::Tier4Implied,
    );
    assert_eq!(all.len(), 2);
    assert_eq!(all[1].surface, "Alice");
    assert_eq!(all[1].source_tier, SignalTier::Tier4Implied);
    assert_eq!(all[1].reference_kind, ReferenceKind::Explicit);
}

#[test]
fn failures_of_models_are_put_down_to_them() {
    let e = extraction_error(IngestError::Other("x".to_string()), "ex");
    assert_eq!(e.message(), "entity extractor ex failed: x");
    let e = extraction_error(IngestError::Invalid("x".to_string()), "ex");
    assert_eq!(e.message(), "invalid input: x");
    let e = check_embedding(Err(IngestError::Other("x".to_string())), "m", 2).unwrap_err();
    assert_eq!(e.message(), "embedding model m failed: x");
    let e = check_embedding(Err(IngestError::TimeRange("x".to_string())), "m", 2).unwrap_err();
    assert_eq!(e.message(), "invalid time range: x");
    assert_eq!(check_embedding(Ok(vec![1, 2]), "m", 2).unwrap(), vec![1, 2]);
}

#[test]
fn a_later_mention_is_not_lost() {
    let mut p = pipeline();
    let resp = p
        .ingest(
            StoreRequest::new("a", "Sarah Chen called. Later Sarah left.")
                .with_content_type(ContentType::Assertion),
        )
        .unwrap();
    let sarah = resp.linked_entities.iter().find(|e| e.canonical_name == "Sarah Chen").unwrap();
    assert!(sarah.aliases.contains(&"Sarah Chen".to_string()), "got {:?}", sarah.aliases);
    assert!(sarah.anchor_record.is_some());
    let stored = p.store.resolve_entity("a", "Sarah Chen");
    assert_eq!(stored.len(), 1);
    assert_eq!(stored[0].aliases, sarah.aliases);
    let again = p.ingest(StoreRequest::new("a", "met Sarah Chen, who said Sarah knows")).unwrap();
    assert_eq!(again.linked_entities.len(), 1);
    assert_eq!(again.linked_entities[0].aliases, vec!["Sarah Chen", "Sarah"]);
    assert_eq!(p.store.resolve_entity("a", "Sarah Chen")[0].aliases, vec!["Sarah Chen", "Sarah"]);
}

#[test]
fn the_copy_that_was_written_last_is_linked() {
    let first = entity("1", "a", "Sarah Chen");
    let second = merge_mention(
        first.copy(),
        &mention("Ms Chen", "Sarah Chen", SignalTier::Tier1Authoritative),
    );
    let linked = link_by_name(vec![first, entity("2", "a", "Acme"), second]);
    assert_eq!(linked.len(), 2);
    assert_eq!(linked[1].aliases, vec!["Sarah Chen", "Ms Chen"]);
    assert_eq!(linked[1].confidence_tier, SignalTier::Tier1Authoritative);
}

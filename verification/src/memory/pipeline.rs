//! Storing a memory: six stages from a request to a written episode.
//!
//! The ingestion is a state machine. It says what to do next (extract mentions,
//! look an entity up, write a record, ...), the caller does it and hands back
//! what came of it, and the ingestion decides how to go on. All that it writes,
//! it writes in one transaction.
use vstd::prelude::*;
use crate::memory::entities::{
    clone_entities, entity_of_mention, fresh_entity, last_of_name, link_by_name, linked_by_name,
    links_are_distinct, merge_mention, merged_entity, merged_with_all, names_ascend, one_per_name,
    soft_match, the_last_copy_is_linked, with_entities, SessionEntities,
};
use crate::memory::error::{IngestError, IngestErrorView, IngestResult};
use crate::memory::extraction::{ExtractedMention, MentionView, ReferenceKind};
use crate::memory::request::{StoreRequest, StoreView};
use crate::memory::response::{EpisodeRecord, QueueHint};
use crate::memory::scoring::{mention_strength, mention_weight, ScoringContext};
use crate::sorting::{ranked, ranked_is_a_sorted_permutation};
use crate::storage::error::{Error, ErrorView};
use crate::storage::record::{
    clone_opt_embedding, clone_opt_id, id_text, thousandths_spec, Entity, EntityView, Episode,
    EpisodeView, RecordId, RecordIdView, SignalTier, Weight,
};
use crate::text::{clone_opt_text, decimal, decimal_of};
use crate::time::Timestamp;

verus! {

// --- Stage one: the source's tier --------------------------------------------

/// The tier of what a request stores: its own, or that of its kind of content.
pub open spec fn tier_of(req: StoreView) -> SignalTier {
    match req.source_tier {
        Some(tier) => tier,
        None => req.content_type.default_tier(),
    }
}

// --- Stage two: mentions -----------------------------------------------------

/// The mention of an entity that the caller named.
pub open spec fn given_mention(name: Seq<char>, tier: SignalTier) -> MentionView {
    MentionView {
        surface: name,
        canonical_name: name,
        entity_type: "other"@,
        source_tier: tier,
        confidence: thousandths_spec(900),
        reference_kind: ReferenceKind::Explicit,
    }
}

/// The mentions of the entities that the caller named.
pub open spec fn given_mentions(names: Seq<Seq<char>>, tier: SignalTier) -> Seq<MentionView> {
    names.map_values(|name: Seq<char>| given_mention(name, tier))
}

/// The failure of an extractor: one that says nothing more is put down to the
/// extractor.
pub open spec fn extraction_failure(e: IngestErrorView, extractor: Seq<char>) -> IngestErrorView {
    match e {
        IngestErrorView::Other(message) => IngestErrorView::Extraction { extractor, message },
        other => other,
    }
}

/// The failure of an extractor: one that says nothing more is put down to the
/// extractor.
pub fn extraction_error(e: IngestError, extractor: &str) -> (r: IngestError)
    ensures
        r.deep_view() == extraction_failure(e.deep_view(), extractor@),
{
    match e {
        IngestError::Other(message) => IngestError::Extraction {
            extractor: extractor.to_owned(),
            message,
        },
        other => other,
    }
}

/// The extracted mentions and those of the entities that the caller named.
pub fn add_given_mentions(
    extracted: Vec<ExtractedMention>,
    names: &Vec<String>,
    tier: SignalTier,
) -> (r: Vec<ExtractedMention>)
    ensures
        r.deep_view() == extracted.deep_view() + given_mentions(names.deep_view(), tier),
{
    let ghost first = extracted.deep_view();
    let ghost given = given_mentions(names.deep_view(), tier);
    let mut out = extracted;
    let mut i: usize = 0;
    assert(first + given.take(0) =~= first);
    while i < names.len()
        invariant
            i <= names@.len(),
            given == given_mentions(names.deep_view(), tier),
            out.deep_view() == first + given.take(i as int),
        decreases names@.len() - i,
    {
        let ghost before = out.deep_view();
        let mention = ExtractedMention {
            surface: names[i].clone(),
            canonical_name: names[i].clone(),
            entity_type: "other".to_owned(),
            source_tier: tier,
            confidence: Weight::thousandths(900),
            reference_kind: ReferenceKind::Explicit,
        };
        assert(given[i as int] == mention.deep_view());
        out.push(mention);
        assert(out.deep_view() =~= before.push(given[i as int]));
        assert(first + given.take(i + 1) =~= (first + given.take(i as int)).push(given[i as int]));
        i = i + 1;
    }
    assert(given.take(i as int) == given);
    out
}

/// The first explicit mention at position `i` or behind it.
pub open spec fn next_explicit(mentions: Seq<MentionView>, i: int) -> int
    decreases mentions.len() - i,
{
    if 0 <= i < mentions.len() && mentions[i].reference_kind != ReferenceKind::Explicit {
        next_explicit(mentions, i + 1)
    } else {
        i
    }
}

// --- Stage four: the embedding -----------------------------------------------

/// The failure of an embedding model: one that says nothing more is put down to
/// the model.
pub open spec fn embedding_failure(e: IngestErrorView, model: Seq<char>) -> IngestErrorView {
    match e {
        IngestErrorView::Other(message) => IngestErrorView::Embedding { model, message },
        other => other,
    }
}

/// What is wrong with an embedding of the wrong dimension.
pub open spec fn dimension_failure(model: Seq<char>, got: nat, expected: nat) -> IngestErrorView {
    IngestErrorView::Embedding {
        model,
        message: "embedder returned "@ + decimal_of(got) + "d, expected "@ + decimal_of(expected)
            + "d"@,
    }
}

/// The embedding that a model returned, where it has the model's dimension.
pub open spec fn accepted_embedding(
    result: Result<Seq<u32>, IngestErrorView>,
    model: Seq<char>,
    dimension: nat,
) -> Result<Seq<u32>, IngestErrorView> {
    match result {
        Err(e) => Err(embedding_failure(e, model)),
        Ok(v) => if v.len() != dimension {
            Err(dimension_failure(model, v.len(), dimension))
        } else {
            Ok(v)
        },
    }
}

/// What a result holds.
pub open spec fn embedding_view(r: IngestResult<Vec<u32>>) -> Result<Seq<u32>, IngestErrorView> {
    match r {
        Ok(v) => Ok(v@),
        Err(e) => Err(e.deep_view()),
    }
}

/// The embedding that a model returned, where it has the model's dimension.
pub fn check_embedding(result: IngestResult<Vec<u32>>, model: &str, dimension: usize) -> (r:
    IngestResult<Vec<u32>>)
    ensures
        embedding_view(r) == accepted_embedding(embedding_view(result), model@, dimension as nat),
{
    match result {
        Err(IngestError::Other(message)) => Err(
            IngestError::Embedding { model: model.to_owned(), message },
        ),
        Err(other) => Err(other),
        Ok(v) => {
            if v.len() != dimension {
                Err(
                    IngestError::Embedding {
                        model: model.to_owned(),
                        message: "embedder returned ".to_owned().concat(
                            decimal(v.len() as u128).as_str(),
                        ).concat("d, expected ").concat(decimal(dimension as u128).as_str()).concat(
                            "d",
                        ),
                    },
                )
            } else {
                Ok(v)
            }
        },
    }
}

// --- The result --------------------------------------------------------------

/// A written episode and the entities that it is linked to.
#[derive(Debug)]
pub struct IngestionResult {
    pub episode: Episode,
    pub linked_entities: Vec<Entity>,
}

/// What an [`IngestionResult`] holds.
pub struct IngestionView {
    pub episode: EpisodeView,
    pub linked_entities: Seq<EntityView>,
}

impl DeepView for IngestionResult {
    type V = IngestionView;

    open spec fn deep_view(&self) -> IngestionView {
        IngestionView {
            episode: self.episode.deep_view(),
            linked_entities: self.linked_entities.deep_view(),
        }
    }
}

impl IngestionResult {
    /// The answer to the caller: the episode is queued for consolidation by its
    /// importance.
    pub fn episode_record(&self) -> (r: EpisodeRecord)
        ensures
            r.episode_id.deep_view() == self.deep_view().episode.id,
            r.entities.deep_view() == self.deep_view().linked_entities,
            r.importance == self.episode.importance,
            r.queued_for.stage@ == "consolidation"@,
            r.queued_for.priority == self.episode.importance,
    {
        EpisodeRecord {
            episode_id: clone_opt_id(&self.episode.id),
            entities: clone_entities(&self.linked_entities),
            importance: self.episode.importance,
            queued_for: QueueHint::consolidation(self.episode.importance),
        }
    }

    /// The entities that the episode is linked to.
    pub fn linked_entities(&self) -> (r: Vec<Entity>)
        ensures
            r.deep_view() == self.deep_view().linked_entities,
    {
        clone_entities(&self.linked_entities)
    }
}

// --- The state machine -------------------------------------------------------

/// What an ingestion waits for.
#[derive(Debug, Clone, Copy, PartialEq, Eq, Structural)]
pub enum IngestPhase {
    /// The mentions of the content.
    Extracting,
    /// A transaction of the store.
    Opening,
    /// The known entities with the name of a mention.
    LookingUp,
    /// A known entity with what a mention adds, as it was written.
    Merging,
    /// The embedding of a new entity.
    EmbeddingEntity,
    /// A new entity, as it was written.
    Creating,
    /// The embedding of the content.
    Embedding,
    /// The importance of the episode.
    Scoring,
    /// The episode, as it was written.
    Writing,
    /// An entity with its anchor, as it was written.
    Anchoring,
    /// A relation between the episode and an entity.
    Relating,
    /// The end of the transaction.
    Committing,
    /// Nothing: the ingestion has succeeded or failed.
    Over,
}

/// What to do next.
#[derive(Debug)]
pub enum IngestAction {
    /// Extract the mentions of a text.
    Extract { content: String, tier: SignalTier },
    /// Open a transaction: what is read and written from here on belongs to it,
    /// and takes effect when it is committed.
    Begin,
    /// Read the entities of an agent that have a name.
    LookUp { agent_id: String, canonical_name: String },
    /// Write an entity, and read it back.
    Upsert(Entity),
    /// Embed a text.
    Embed { content: String },
    /// Score the episode.
    Score,
    /// Write an episode, and read it back.
    WriteEpisode(Episode),
    /// Relate two records.
    Relate { from: String, relation: String, to: String, weight: Weight },
    /// Commit the transaction.
    Commit,
    /// All is done.
    Finish(IngestionResult),
    /// The ingestion has failed, and no transaction is open.
    Fail(IngestError),
    /// The ingestion has failed, and the transaction is to be cancelled.
    Cancel(IngestError),
}

/// What an [`IngestAction`] asks for.
pub enum IngestActionView {
    Extract { content: Seq<char>, tier: SignalTier },
    Begin,
    LookUp { agent_id: Seq<char>, canonical_name: Seq<char> },
    Upsert(EntityView),
    Embed { content: Seq<char> },
    Score,
    WriteEpisode(EpisodeView),
    Relate { from: Seq<char>, relation: Seq<char>, to: Seq<char>, weight: Weight },
    Commit,
    Finish(IngestionView),
    Fail(IngestErrorView),
    Cancel(IngestErrorView),
}

impl DeepView for IngestAction {
    type V = IngestActionView;

    open spec fn deep_view(&self) -> IngestActionView {
        match self {
            IngestAction::Extract { content, tier } => IngestActionView::Extract {
                content: content@,
                tier: *tier,
            },
            IngestAction::Begin => IngestActionView::Begin,
            IngestAction::LookUp { agent_id, canonical_name } => IngestActionView::LookUp {
                agent_id: agent_id@,
                canonical_name: canonical_name@,
            },
            IngestAction::Upsert(e) => IngestActionView::Upsert(e.deep_view()),
            IngestAction::Embed { content } => IngestActionView::Embed { content: content@ },
            IngestAction::Score => IngestActionView::Score,
            IngestAction::WriteEpisode(e) => IngestActionView::WriteEpisode(e.deep_view()),
            IngestAction::Relate { from, relation, to, weight } => IngestActionView::Relate {
                from: from@,
                relation: relation@,
                to: to@,
                weight: *weight,
            },
            IngestAction::Commit => IngestActionView::Commit,
            IngestAction::Finish(r) => IngestActionView::Finish(r.deep_view()),
            IngestAction::Fail(e) => IngestActionView::Fail(e.deep_view()),
            IngestAction::Cancel(e) => IngestActionView::Cancel(e.deep_view()),
        }
    }
}

/// The ids of entities.
pub open spec fn ids_of(entities: Seq<EntityView>) -> Seq<RecordIdView>
    decreases entities.len(),
{
    if entities.len() == 0 {
        Seq::empty()
    } else {
        let front = ids_of(entities.drop_last());
        match entities.last().id {
            Some(id) => front.push(id),
            None => front,
        }
    }
}

/// The first entity without an anchor at position `i` or behind it.
pub open spec fn next_unanchored(entities: Seq<EntityView>, i: int) -> int
    decreases entities.len() - i,
{
    if 0 <= i < entities.len() && entities[i].anchor_record is Some {
        next_unanchored(entities, i + 1)
    } else {
        i
    }
}

/// What an [`Ingestion`] holds.
pub struct IngestView {
    pub request: StoreView,
    /// The name of the extractor.
    pub extractor: Seq<char>,
    /// The name of the embedding model.
    pub model: Seq<char>,
    /// The dimension of the embedding model.
    pub dimension: nat,
    /// When the ingestion started.
    pub now: Timestamp,
    pub tier: SignalTier,
    pub phase: IngestPhase,
    /// The mention or the entity that it is at.
    pub at: int,
    pub mentions: Seq<MentionView>,
    pub linked: Seq<EntityView>,
    /// The entities that were written, in that order.
    pub stored: Seq<EntityView>,
    pub embedding: Option<Seq<u32>>,
    pub importance: Weight,
    pub episode: Option<EpisodeView>,
}

impl IngestView {
    /// An ingestion that has just started.
    pub open spec fn start(
        request: StoreView,
        extractor: Seq<char>,
        model: Seq<char>,
        dimension: nat,
        now: Timestamp,
    ) -> IngestView {
        IngestView {
            request,
            extractor,
            model,
            dimension,
            now,
            tier: tier_of(request),
            phase: IngestPhase::Extracting,
            at: 0,
            mentions: Seq::empty(),
            linked: Seq::empty(),
            stored: Seq::empty(),
            embedding: None,
            importance: Weight { millionths: 0 },
            episode: None,
        }
    }

    /// When the event happened; now, where the request does not say.
    pub open spec fn valid_time(self) -> Timestamp {
        match self.request.valid_time {
            Some(t) => t,
            None => self.now,
        }
    }

    /// A transaction is open.
    pub open spec fn in_transaction(self) -> bool {
        match self.phase {
            IngestPhase::Extracting | IngestPhase::Opening | IngestPhase::Over => false,
            _ => true,
        }
    }

    /// The ingestion fails. A transaction that is open is cancelled.
    pub open spec fn fail(self, e: IngestErrorView) -> (IngestView, IngestActionView) {
        (
            IngestView { phase: IngestPhase::Over, ..self },
            if self.in_transaction() {
                IngestActionView::Cancel(e)
            } else {
                IngestActionView::Fail(e)
            },
        )
    }

    /// The ingestion fails because the store did.
    pub open spec fn fail_storing(self, stage: Seq<char>, source: ErrorView) -> (
        IngestView,
        IngestActionView,
    ) {
        self.fail(IngestErrorView::Storage { stage, source })
    }

    /// Goes on with the next explicit mention, or with the embedding where there
    /// is none.
    pub open spec fn advance(self) -> (IngestView, IngestActionView) {
        let i = next_explicit(self.mentions, self.at);
        if 0 <= i < self.mentions.len() {
            (
                IngestView { phase: IngestPhase::LookingUp, at: i, ..self },
                IngestActionView::LookUp {
                    agent_id: self.request.agent_id,
                    canonical_name: self.mentions[i].canonical_name,
                },
            )
        } else {
            (
                IngestView {
                    phase: IngestPhase::Embedding,
                    at: 0,
                    linked: linked_by_name(self.linked),
                    ..self
                },
                IngestActionView::Embed { content: self.request.content },
            )
        }
    }

    /// The mentions have been extracted.
    pub open spec fn on_extracted(self, result: Result<Seq<MentionView>, IngestErrorView>) -> (
        IngestView,
        IngestActionView,
    ) {
        match result {
            Err(e) => self.fail(extraction_failure(e, self.extractor)),
            Ok(found) => (
                IngestView {
                    phase: IngestPhase::Opening,
                    mentions: found + given_mentions(
                        self.request.preidentified_entities,
                        self.tier,
                    ),
                    at: 0,
                    ..self
                },
                IngestActionView::Begin,
            ),
        }
    }

    /// The transaction has been opened.
    pub open spec fn on_opened(self, result: Result<(), ErrorView>) -> (
        IngestView,
        IngestActionView,
    ) {
        match result {
            Err(e) => self.fail_storing("begin"@, e),
            Ok(_) => self.advance(),
        }
    }

    /// The known entity that the current mention is of: one with its name, or
    /// one that it may be short for, of the session or of this ingestion.
    pub open spec fn candidate(self, rows: Seq<EntityView>, session: Seq<EntityView>) -> Option<
        EntityView,
    > {
        if rows.len() > 0 {
            Some(rows[0])
        } else {
            soft_match(
                with_entities(session, self.stored),
                self.request.agent_id,
                self.mentions[self.at].canonical_name,
            )
        }
    }

    /// The entities with the name of the current mention have been read.
    pub open spec fn on_looked_up(
        self,
        result: Result<Seq<EntityView>, ErrorView>,
        session: Seq<EntityView>,
    ) -> (IngestView, IngestActionView) {
        match result {
            Err(e) => self.fail_storing("disambiguate"@, e),
            Ok(rows) => match self.candidate(rows, session) {
                Some(found) => (
                    IngestView { phase: IngestPhase::Merging, ..self },
                    IngestActionView::Upsert(merged_entity(found, self.mentions[self.at])),
                ),
                None => (
                    IngestView { phase: IngestPhase::EmbeddingEntity, ..self },
                    IngestActionView::Embed { content: self.mentions[self.at].canonical_name },
                ),
            },
        }
    }

    /// The name of a new entity has been embedded.
    pub open spec fn on_entity_embedded(self, result: Result<Seq<u32>, IngestErrorView>) -> (
        IngestView,
        IngestActionView,
    ) {
        match accepted_embedding(result, self.model, self.dimension) {
            Err(e) => self.fail(e),
            Ok(v) => (
                IngestView { phase: IngestPhase::Creating, ..self },
                IngestActionView::Upsert(
                    fresh_entity(
                        self.request.agent_id,
                        self.request.org_id,
                        self.mentions[self.at],
                        v,
                    ),
                ),
            ),
        }
    }

    /// The entity of a mention has been written.
    pub open spec fn on_entity(self, result: Result<EntityView, ErrorView>) -> (
        IngestView,
        IngestActionView,
    ) {
        match result {
            Err(e) => self.fail_storing(
                if self.phase == IngestPhase::Merging {
                    "disambiguate-merge"@
                } else {
                    "disambiguate-create"@
                },
                e,
            ),
            Ok(written) => (IngestView {
                linked: self.linked.push(written),
                stored: self.stored.push(written),
                at: self.at + 1,
                ..self
            }).advance(),
        }
    }

    /// The content has been embedded.
    pub open spec fn on_embedded(self, result: Result<Seq<u32>, IngestErrorView>) -> (
        IngestView,
        IngestActionView,
    ) {
        match accepted_embedding(result, self.model, self.dimension) {
            Err(e) => self.fail(e),
            Ok(v) => match self.request.importance_override {
                Some(w) => (IngestView {
                    embedding: Some(v),
                    importance: w.clamped_spec(),
                    ..self
                }).write(),
                None => (
                    IngestView { phase: IngestPhase::Scoring, embedding: Some(v), ..self },
                    IngestActionView::Score,
                ),
            },
        }
    }

    /// The episode has been scored.
    pub open spec fn on_scored(self, result: Result<Weight, IngestErrorView>) -> (
        IngestView,
        IngestActionView,
    ) {
        match result {
            Err(e) => self.fail(e),
            Ok(importance) => (IngestView { importance, ..self }).write(),
        }
    }

    /// The episode to write.
    pub open spec fn episode_to_write(self) -> EpisodeView {
        EpisodeView {
            id: None,
            agent_id: self.request.agent_id,
            org_id: self.request.org_id,
            user_id: self.request.user_id,
            content: self.request.content,
            content_type: self.request.content_type.name(),
            embedding: self.embedding,
            importance: self.importance,
            entities: if self.linked.len() == 0 {
                None
            } else {
                Some(ids_of(self.linked))
            },
            valid_time_start: self.valid_time(),
            valid_time_end: self.request.valid_time_end,
            transaction_time: None,
            consolidated: false,
            consolidated_at: None,
            summary: None,
            source_tier: self.tier,
            metadata: self.request.metadata,
        }
    }

    /// Goes on to write the episode.
    pub open spec fn write(self) -> (IngestView, IngestActionView) {
        (
            IngestView { phase: IngestPhase::Writing, ..self },
            IngestActionView::WriteEpisode(self.episode_to_write()),
        )
    }

    /// The episode has been written. An authoritative episode becomes the anchor
    /// of its entities that have none.
    pub open spec fn on_written(self, result: Result<EpisodeView, ErrorView>) -> (
        IngestView,
        IngestActionView,
    ) {
        match result {
            Err(e) => self.fail_storing("write_episode"@, e),
            Ok(episode) => {
                let state = IngestView { episode: Some(episode), ..self };
                if self.tier == SignalTier::Tier1Authoritative {
                    state.anchor(0)
                } else {
                    state.relate(0)
                }
            },
        }
    }

    /// Anchors the next entity without an anchor from position `i` on.
    pub open spec fn anchor(self, i: int) -> (IngestView, IngestActionView) {
        let j = next_unanchored(self.linked, i);
        if 0 <= j < self.linked.len() {
            let entity = EntityView { anchor_record: self.episode->0.id, ..self.linked[j] };
            (
                IngestView {
                    phase: IngestPhase::Anchoring,
                    at: j,
                    linked: self.linked.update(j, entity),
                    ..self
                },
                IngestActionView::Upsert(entity),
            )
        } else {
            self.relate(0)
        }
    }

    /// An entity has been written with its anchor.
    pub open spec fn on_anchored(self, result: Result<EntityView, ErrorView>) -> (
        IngestView,
        IngestActionView,
    ) {
        match result {
            Err(e) => self.fail_storing("write-anchor"@, e),
            Ok(written) => (IngestView {
                linked: self.linked.update(self.at, written),
                stored: self.stored.push(written),
                ..self
            }).anchor(self.at + 1),
        }
    }

    /// Relates the episode to the entity at position `i`; where there is none,
    /// all is written.
    pub open spec fn relate(self, i: int) -> (IngestView, IngestActionView) {
        if 0 <= i < self.linked.len() {
            (
                IngestView { phase: IngestPhase::Relating, at: i, ..self },
                IngestActionView::Relate {
                    from: id_text(self.episode->0.id->0),
                    relation: "episode_mentions_entity"@,
                    to: id_text(self.linked[i].id->0),
                    weight: thousandths_spec(mention_strength(self.tier)),
                },
            )
        } else {
            (IngestView { phase: IngestPhase::Committing, ..self }, IngestActionView::Commit)
        }
    }

    /// The episode has been related to an entity.
    pub open spec fn on_related(self, result: Result<(), ErrorView>) -> (
        IngestView,
        IngestActionView,
    ) {
        match result {
            Err(e) => self.fail_storing("write-relate"@, e),
            Ok(_) => self.relate(self.at + 1),
        }
    }

    /// The transaction has been committed. One that could not be is open no more.
    pub open spec fn on_committed(self, result: Result<(), ErrorView>) -> (
        IngestView,
        IngestActionView,
    ) {
        (
            IngestView { phase: IngestPhase::Over, ..self },
            match result {
                Err(e) => IngestActionView::Fail(
                    IngestErrorView::Storage { stage: "commit"@, source: e },
                ),
                Ok(_) => IngestActionView::Finish(
                    IngestionView { episode: self.episode->0, linked_entities: self.linked },
                ),
            },
        )
    }

    /// The session once the transaction has been committed: it knows all that was
    /// written.
    pub open spec fn session_after(
        self,
        session: Seq<EntityView>,
        result: Result<(), ErrorView>,
    ) -> Seq<EntityView> {
        match result {
            Ok(_) => with_entities(session, self.stored),
            Err(_) => session,
        }
    }

    /// Every linked entity has an id.
    pub open spec fn links_have_ids(self) -> bool {
        forall|i: int| 0 <= i < self.linked.len() ==> (#[trigger] self.linked[i]).id is Some
    }

    /// The ingestion can go on.
    pub open spec fn wf(self) -> bool {
        &&& self.links_have_ids()
        &&& self.phase == IngestPhase::Opening ==> 0 <= self.at <= self.mentions.len()
        &&& self.phase == IngestPhase::LookingUp || self.phase == IngestPhase::Merging || self.phase
            == IngestPhase::EmbeddingEntity || self.phase == IngestPhase::Creating ==> 0 <= self.at
            < self.mentions.len()
        &&& self.phase == IngestPhase::Anchoring || self.phase == IngestPhase::Relating ==> {
            &&& 0 <= self.at < self.linked.len()
            &&& self.episode is Some
            &&& self.episode->0.id is Some
        }
        &&& self.phase == IngestPhase::Committing ==> self.episode is Some
    }
}

/// The next explicit mention: before it there is none.
pub proof fn lemma_next_explicit(mentions: Seq<MentionView>, i: int)
    requires
        0 <= i <= mentions.len(),
    ensures
        i <= next_explicit(mentions, i) <= mentions.len(),
        forall|k: int|
            i <= k < next_explicit(mentions, i) ==> (#[trigger] mentions[k]).reference_kind
                != ReferenceKind::Explicit,
        next_explicit(mentions, i) < mentions.len() ==> mentions[next_explicit(
            mentions,
            i,
        )].reference_kind == ReferenceKind::Explicit,
    decreases mentions.len() - i,
{
    if i < mentions.len() && mentions[i].reference_kind != ReferenceKind::Explicit {
        lemma_next_explicit(mentions, i + 1);
    }
}

proof fn lemma_next_unanchored(entities: Seq<EntityView>, i: int)
    requires
        0 <= i <= entities.len(),
    ensures
        i <= next_unanchored(entities, i) <= entities.len(),
        forall|k: int|
            i <= k < next_unanchored(entities, i) ==> (#[trigger] entities[k]).anchor_record
                is Some,
        next_unanchored(entities, i) < entities.len() ==> entities[next_unanchored(
            entities,
            i,
        )].anchor_record is None,
    decreases entities.len() - i,
{
    if i < entities.len() && entities[i].anchor_record is Some {
        lemma_next_unanchored(entities, i + 1);
    }
}

proof fn lemma_advance_keeps(state: IngestView)
    requires
        state.links_have_ids(),
        0 <= state.at <= state.mentions.len(),
    ensures
        state.advance().0.wf(),
{
    lemma_next_explicit(state.mentions, state.at);
    links_are_distinct(state.linked);
    let links = linked_by_name(state.linked);
    assert forall|i: int| 0 <= i < links.len() implies (#[trigger] links[i]).id is Some by {
        assert(links.contains(links[i]));
        assert(state.linked.contains(links[i]));
    }
}

proof fn lemma_anchor_keeps(state: IngestView, i: int)
    requires
        state.links_have_ids(),
        0 <= i <= state.linked.len(),
        state.episode is Some,
        state.episode->0.id is Some,
    ensures
        state.anchor(i).0.wf(),
{
    lemma_next_unanchored(state.linked, i);
}

// --- The ingestion -----------------------------------------------------------

/// An ingestion that is under way.
#[derive(Debug)]
pub struct Ingestion {
    request: StoreRequest,
    extractor: String,
    model: String,
    dimension: usize,
    now: Timestamp,
    tier: SignalTier,
    phase: IngestPhase,
    at: usize,
    mentions: Vec<ExtractedMention>,
    linked: Vec<Entity>,
    stored: Vec<Entity>,
    embedding: Option<Vec<u32>>,
    importance: Weight,
    episode: Option<Episode>,
}

impl View for Ingestion {
    type V = IngestView;

    closed spec fn view(&self) -> IngestView {
        IngestView {
            request: self.request.deep_view(),
            extractor: self.extractor@,
            model: self.model@,
            dimension: self.dimension as nat,
            now: self.now,
            tier: self.tier,
            phase: self.phase,
            at: self.at as int,
            mentions: self.mentions.deep_view(),
            linked: self.linked.deep_view(),
            stored: self.stored.deep_view(),
            embedding: self.embedding.deep_view(),
            importance: self.importance,
            episode: self.episode.deep_view(),
        }
    }
}

/// What a result about mentions holds.
pub open spec fn mentions_view(r: IngestResult<Vec<ExtractedMention>>) -> Result<
    Seq<MentionView>,
    IngestErrorView,
> {
    match r {
        Ok(v) => Ok(v.deep_view()),
        Err(e) => Err(e.deep_view()),
    }
}

/// What a result about entities holds.
pub open spec fn entities_view(r: Result<Vec<Entity>, Error>) -> Result<
    Seq<EntityView>,
    ErrorView,
> {
    match r {
        Ok(v) => Ok(v.deep_view()),
        Err(e) => Err(e.deep_view()),
    }
}

/// What a result about an entity holds.
pub open spec fn entity_view(r: Result<Entity, Error>) -> Result<EntityView, ErrorView> {
    match r {
        Ok(v) => Ok(v.deep_view()),
        Err(e) => Err(e.deep_view()),
    }
}

/// What a result about an episode holds.
pub open spec fn episode_view(r: Result<Episode, Error>) -> Result<EpisodeView, ErrorView> {
    match r {
        Ok(v) => Ok(v.deep_view()),
        Err(e) => Err(e.deep_view()),
    }
}

/// What a result without a value holds.
pub open spec fn outcome_view(r: Result<(), Error>) -> Result<(), ErrorView> {
    match r {
        Ok(_) => Ok(()),
        Err(e) => Err(e.deep_view()),
    }
}

/// What a result about a score holds.
pub open spec fn score_view(r: IngestResult<Weight>) -> Result<Weight, IngestErrorView> {
    match r {
        Ok(w) => Ok(w),
        Err(e) => Err(e.deep_view()),
    }
}

impl Ingestion {
    /// Starts an ingestion of a request, or says what is wrong with it. The
    /// mentions are to be extracted next.
    pub fn begin(
        request: StoreRequest,
        extractor: &str,
        model: &str,
        dimension: usize,
        now: Timestamp,
    ) -> (r: IngestResult<(Ingestion, IngestAction)>)
        requires
            request.times_valid(),
        ensures
            match r {
                Ok((run, action)) => {
                    &&& request.fault() is None
                    &&& run@ == IngestView::start(
                        request.deep_view(),
                        extractor@,
                        model@,
                        dimension as nat,
                        now,
                    )
                    &&& action.deep_view() == (IngestActionView::Extract {
                        content: request.content@,
                        tier: tier_of(request.deep_view()),
                    })
                    &&& run@.wf()
                },
                Err(e) => request.fault() == Some(e.deep_view()),
            },
    {
        if let Err(e) = request.validate() {
            return Err(e);
        }
        let tier = match request.source_tier {
            Some(tier) => tier,
            None => request.content_type.default_source_tier(),
        };
        let action = IngestAction::Extract { content: request.content.clone(), tier };
        let run = Ingestion {
            request,
            extractor: extractor.to_owned(),
            model: model.to_owned(),
            dimension,
            now,
            tier,
            phase: IngestPhase::Extracting,
            at: 0,
            mentions: Vec::new(),
            linked: Vec::new(),
            stored: Vec::new(),
            embedding: None,
            importance: Weight { millionths: 0 },
            episode: None,
        };
        assert(run@.mentions =~= Seq::<MentionView>::empty());
        assert(run@.linked =~= Seq::<EntityView>::empty());
        assert(run@.stored =~= Seq::<EntityView>::empty());
        Ok((run, action))
    }

    /// What the ingestion waits for.
    pub fn phase(&self) -> (r: IngestPhase)
        ensures
            r == self@.phase,
    {
        self.phase
    }

    fn fail(&mut self, e: IngestError) -> (r: IngestAction)
        ensures
            (final(self)@, r.deep_view()) == old(self)@.fail(e.deep_view()),
    {
        let ghost before = self@;
        let open = match self.phase {
            IngestPhase::Extracting | IngestPhase::Opening | IngestPhase::Over => false,
            _ => true,
        };
        self.phase = IngestPhase::Over;
        assert(self@ == IngestView { phase: IngestPhase::Over, ..before });
        if open {
            IngestAction::Cancel(e)
        } else {
            IngestAction::Fail(e)
        }
    }

    fn advance(&mut self) -> (r: IngestAction)
        requires
            old(self)@.links_have_ids(),
            0 <= old(self)@.at <= old(self)@.mentions.len(),
        ensures
            (final(self)@, r.deep_view()) == old(self)@.advance(),
            final(self)@.wf(),
    {
        let ghost first = self@;
        proof {
            lemma_advance_keeps(first);
        }
        let n: usize = self.mentions.len();
        let mut i: usize = self.at;
        while i < n && self.mentions[i].reference_kind != ReferenceKind::Explicit
            invariant
                first == self@,
                i <= n == self.mentions@.len(),
                next_explicit(first.mentions, i as int) == next_explicit(first.mentions, first.at),
            decreases n - i,
        {
            assert(first.mentions[i as int] == self.mentions@[i as int].deep_view());
            i = i + 1;
        }
        if i < n {
            assert(first.mentions[i as int] == self.mentions@[i as int].deep_view());
            self.phase = IngestPhase::LookingUp;
            self.at = i;
            assert(self@ == IngestView { phase: IngestPhase::LookingUp, at: i as int, ..first });
            IngestAction::LookUp {
                agent_id: self.request.agent_id.clone(),
                canonical_name: self.mentions[i].canonical_name.clone(),
            }
        } else {
            self.phase = IngestPhase::Embedding;
            self.at = 0;
            let linked = link_by_name(clone_entities(&self.linked));
            self.linked = linked;
            assert(self@ == IngestView {
                phase: IngestPhase::Embedding,
                at: 0,
                linked: linked_by_name(first.linked),
                ..first
            });
            IngestAction::Embed { content: self.request.content.clone() }
        }
    }

    /// The mentions have been extracted.
    pub fn extracted(&mut self, result: IngestResult<Vec<ExtractedMention>>) -> (r: IngestAction)
        requires
            old(self)@.phase == IngestPhase::Extracting,
            old(self)@.wf(),
        ensures
            (final(self)@, r.deep_view()) == old(self)@.on_extracted(mentions_view(result)),
            final(self)@.wf(),
    {
        let ghost first = self@;
        match result {
            Err(e) => {
                let e = extraction_error(e, self.extractor.as_str());
                self.fail(e)
            },
            Ok(found) => {
                self.mentions = add_given_mentions(
                    found,
                    &self.request.preidentified_entities,
                    self.tier,
                );
                self.at = 0;
                self.phase = IngestPhase::Opening;
                assert(self@ == IngestView {
                    phase: IngestPhase::Opening,
                    mentions: found.deep_view() + given_mentions(
                        first.request.preidentified_entities,
                        first.tier,
                    ),
                    at: 0,
                    ..first
                });
                IngestAction::Begin
            },
        }
    }

    /// The transaction has been opened.
    pub fn opened(&mut self, result: Result<(), Error>) -> (r: IngestAction)
        requires
            old(self)@.phase == IngestPhase::Opening,
            old(self)@.wf(),
        ensures
            (final(self)@, r.deep_view()) == old(self)@.on_opened(outcome_view(result)),
            final(self)@.wf(),
    {
        match result {
            Err(source) => self.fail(IngestError::Storage { stage: "begin", source }),
            Ok(_) => self.advance(),
        }
    }

    /// The entities with the name of the current mention have been read.
    pub fn looked_up(&mut self, result: Result<Vec<Entity>, Error>, session: &SessionEntities) -> (r:
        IngestAction)
        requires
            old(self)@.phase == IngestPhase::LookingUp,
            old(self)@.wf(),
        ensures
            (final(self)@, r.deep_view()) == old(self)@.on_looked_up(
                entities_view(result),
                session@,
            ),
            final(self)@.wf(),
    {
        let ghost first = self@;
        let at: usize = self.at;
        assert(first.mentions[at as int] == self.mentions@[at as int].deep_view());
        match result {
            Err(source) => self.fail(IngestError::Storage { stage: "disambiguate", source }),
            Ok(rows) => {
                let candidate = if rows.len() > 0 {
                    assert(rows.deep_view()[0] == rows@[0].deep_view());
                    Some(rows[0].copy())
                } else {
                    let mut known = session.copy();
                    known.record_session_entities(&self.stored);
                    known.find_soft_match(
                        self.request.agent_id.as_str(),
                        self.mentions[at].canonical_name.as_str(),
                    )
                };
                match candidate {
                    Some(found) => {
                        self.phase = IngestPhase::Merging;
                        assert(self@ == IngestView { phase: IngestPhase::Merging, ..first });
                        IngestAction::Upsert(merge_mention(found, &self.mentions[at]))
                    },
                    None => {
                        self.phase = IngestPhase::EmbeddingEntity;
                        assert(self@ == IngestView { phase: IngestPhase::EmbeddingEntity, ..first });
                        IngestAction::Embed { content: self.mentions[at].canonical_name.clone() }
                    },
                }
            },
        }
    }

    /// The name of a new entity has been embedded.
    pub fn entity_embedded(&mut self, result: IngestResult<Vec<u32>>) -> (r: IngestAction)
        requires
            old(self)@.phase == IngestPhase::EmbeddingEntity,
            old(self)@.wf(),
        ensures
            (final(self)@, r.deep_view()) == old(self)@.on_entity_embedded(embedding_view(result)),
            final(self)@.wf(),
    {
        let ghost first = self@;
        let at: usize = self.at;
        assert(first.mentions[at as int] == self.mentions@[at as int].deep_view());
        match check_embedding(result, self.model.as_str(), self.dimension) {
            Err(e) => self.fail(e),
            Ok(v) => {
                self.phase = IngestPhase::Creating;
                assert(self@ == IngestView { phase: IngestPhase::Creating, ..first });
                IngestAction::Upsert(
                    entity_of_mention(
                        self.request.agent_id.as_str(),
                        &self.request.org_id,
                        &self.mentions[at],
                        v,
                    ),
                )
            },
        }
    }

    /// The entity of the current mention has been written.
    pub fn entity_written(&mut self, result: Result<Entity, Error>) -> (r: IngestAction)
        requires
            old(self)@.phase == IngestPhase::Merging || old(self)@.phase == IngestPhase::Creating,
            old(self)@.wf(),
            entity_view(result) is Ok ==> entity_view(result)->Ok_0.id is Some,
        ensures
            (final(self)@, r.deep_view()) == old(self)@.on_entity(entity_view(result)),
            final(self)@.wf(),
    {
        let ghost first = self@;
        match result {
            Err(source) => {
                if self.phase == IngestPhase::Merging {
                    self.fail(IngestError::Storage { stage: "disambiguate-merge", source })
                } else {
                    self.fail(IngestError::Storage { stage: "disambiguate-create", source })
                }
            },
            Ok(written) => {
                let ghost e = written.deep_view();
                self.stored.push(written.copy());
                self.linked.push(written);
                let n: usize = self.mentions.len();
                assert(self.at < n);
                self.at = self.at + 1;
                assert(self@.linked =~= first.linked.push(e));
                assert(self@.stored =~= first.stored.push(e));
                assert(self@ == IngestView {
                    linked: first.linked.push(e),
                    stored: first.stored.push(e),
                    at: first.at + 1,
                    ..first
                });
                self.advance()
            },
        }
    }

    /// The content has been embedded.
    pub fn embedded(&mut self, result: IngestResult<Vec<u32>>) -> (r: IngestAction)
        requires
            old(self)@.phase == IngestPhase::Embedding,
            old(self)@.wf(),
        ensures
            (final(self)@, r.deep_view()) == old(self)@.on_embedded(embedding_view(result)),
            final(self)@.wf(),
    {
        let ghost first = self@;
        match check_embedding(result, self.model.as_str(), self.dimension) {
            Err(e) => self.fail(e),
            Ok(v) => {
                assert(v.deep_view() =~= v@);
                self.embedding = Some(v);
                match self.request.importance_override {
                    Some(w) => {
                        self.importance = w.clamped();
                        assert(self@ == IngestView {
                            embedding: Some(v@),
                            importance: w.clamped_spec(),
                            ..first
                        });
                        self.write()
                    },
                    None => {
                        self.phase = IngestPhase::Scoring;
                        assert(self@ == IngestView {
                            phase: IngestPhase::Scoring,
                            embedding: Some(v@),
                            ..first
                        });
                        IngestAction::Score
                    },
                }
            },
        }
    }

    /// What a scorer goes by.
    pub fn scoring_context<'a>(&'a self) -> (r: ScoringContext<'a>)
        ensures
            r.agent_id@ == self@.request.agent_id,
            r.content@ == self@.request.content,
            r.content_type == self@.request.content_type,
            r.source_tier == self@.tier,
            r.mentions.deep_view() == self@.mentions,
            r.valid_time == self@.valid_time(),
            r.content_length == vstd::utf8::encode_utf8(self@.request.content).len() as usize,
    {
        ScoringContext {
            agent_id: self.request.agent_id.as_str(),
            content: self.request.content.as_str(),
            content_type: self.request.content_type,
            source_tier: self.tier,
            mentions: &self.mentions,
            valid_time: match self.request.valid_time {
                Some(t) => t,
                None => self.now,
            },
            content_length: self.request.content.as_str().len(),
        }
    }

    /// The episode has been scored.
    pub fn scored(&mut self, result: IngestResult<Weight>) -> (r: IngestAction)
        requires
            old(self)@.phase == IngestPhase::Scoring,
            old(self)@.wf(),
        ensures
            (final(self)@, r.deep_view()) == old(self)@.on_scored(score_view(result)),
            final(self)@.wf(),
    {
        let ghost first = self@;
        match result {
            Err(e) => self.fail(e),
            Ok(importance) => {
                self.importance = importance;
                assert(self@ == IngestView { importance, ..first });
                self.write()
            },
        }
    }

    fn linked_ids(&self) -> (r: Vec<RecordId>)
        ensures
            r.deep_view() == ids_of(self@.linked),
    {
        let ghost all = self@.linked;
        let mut out: Vec<RecordId> = Vec::new();
        let mut i: usize = 0;
        assert(out.deep_view() =~= ids_of(all.take(0)));
        while i < self.linked.len()
            invariant
                i <= self.linked@.len(),
                all == self.linked.deep_view(),
                out.deep_view() == ids_of(all.take(i as int)),
            decreases self.linked@.len() - i,
        {
            let ghost before = out.deep_view();
            assert(all.take(i + 1).drop_last() == all.take(i as int));
            assert(all.take(i + 1).last() == self.linked@[i as int].deep_view());
            if let Some(id) = &self.linked[i].id {
                let copy = id.copy();
                out.push(copy);
                assert(out.deep_view() =~= before.push(id.deep_view()));
            }
            i = i + 1;
        }
        assert(all.take(i as int) == all);
        out
    }

    fn write(&mut self) -> (r: IngestAction)
        requires
            old(self)@.links_have_ids(),
        ensures
            (final(self)@, r.deep_view()) == old(self)@.write(),
            final(self)@.wf(),
    {
        let ghost first = self@;
        let entities = if self.linked.len() == 0 {
            None
        } else {
            Some(self.linked_ids())
        };
        let episode = Episode {
            id: None,
            agent_id: self.request.agent_id.clone(),
            org_id: clone_opt_text(&self.request.org_id),
            user_id: clone_opt_text(&self.request.user_id),
            content: self.request.content.clone(),
            content_type: self.request.content_type.as_str().to_owned(),
            embedding: clone_opt_embedding(&self.embedding),
            importance: self.importance,
            entities,
            valid_time_start: match self.request.valid_time {
                Some(t) => t,
                None => self.now,
            },
            valid_time_end: self.request.valid_time_end,
            transaction_time: None,
            consolidated: false,
            consolidated_at: None,
            summary: None,
            source_tier: self.tier,
            metadata: self.request.metadata.clone(),
        };
        assert(episode.deep_view() == first.episode_to_write());
        self.phase = IngestPhase::Writing;
        assert(self@ == IngestView { phase: IngestPhase::Writing, ..first });
        IngestAction::WriteEpisode(episode)
    }

    /// The episode has been written.
    pub fn episode_written(&mut self, result: Result<Episode, Error>) -> (r: IngestAction)
        requires
            old(self)@.phase == IngestPhase::Writing,
            old(self)@.wf(),
            episode_view(result) is Ok ==> episode_view(result)->Ok_0.id is Some,
        ensures
            (final(self)@, r.deep_view()) == old(self)@.on_written(episode_view(result)),
            final(self)@.wf(),
    {
        let ghost first = self@;
        match result {
            Err(source) => self.fail(IngestError::Storage { stage: "write_episode", source }),
            Ok(episode) => {
                let ghost e = episode.deep_view();
                self.episode = Some(episode);
                assert(self@ == IngestView { episode: Some(e), ..first });
                if self.tier == SignalTier::Tier1Authoritative {
                    self.anchor_from(0)
                } else {
                    self.relate_from(0)
                }
            },
        }
    }

    fn anchor_from(&mut self, start: usize) -> (r: IngestAction)
        requires
            old(self)@.links_have_ids(),
            start <= old(self)@.linked.len(),
            old(self)@.episode is Some,
            old(self)@.episode->0.id is Some,
        ensures
            (final(self)@, r.deep_view()) == old(self)@.anchor(start as int),
            final(self)@.wf(),
    {
        let ghost first = self@;
        proof {
            lemma_anchor_keeps(first, start as int);
        }
        let n: usize = self.linked.len();
        let mut i: usize = start;
        while i < n && self.linked[i].anchor_record.is_some()
            invariant
                first == self@,
                i <= n == self.linked@.len(),
                next_unanchored(first.linked, i as int) == next_unanchored(
                    first.linked,
                    start as int,
                ),
            decreases n - i,
        {
            assert(first.linked[i as int] == self.linked@[i as int].deep_view());
            i = i + 1;
        }
        if i >= n {
            return self.relate_from(0);
        }
        assert(first.linked[i as int] == self.linked@[i as int].deep_view());
        let anchor = clone_opt_id(&self.episode.as_ref().unwrap().id);
        let mut entity = self.linked[i].copy();
        entity.anchor_record = anchor;
        let ghost e = entity.deep_view();
        assert(e == EntityView { anchor_record: first.episode->0.id, ..first.linked[i as int] });
        let action = IngestAction::Upsert(entity.copy());
        self.linked.set(i, entity);
        assert(self@.linked =~= first.linked.update(i as int, e));
        self.phase = IngestPhase::Anchoring;
        self.at = i;
        assert(self@ == IngestView {
            phase: IngestPhase::Anchoring,
            at: i as int,
            linked: first.linked.update(i as int, e),
            ..first
        });
        action
    }

    /// An entity has been written with its anchor.
    pub fn anchor_written(&mut self, result: Result<Entity, Error>) -> (r: IngestAction)
        requires
            old(self)@.phase == IngestPhase::Anchoring,
            old(self)@.wf(),
            entity_view(result) is Ok ==> entity_view(result)->Ok_0.id is Some,
        ensures
            (final(self)@, r.deep_view()) == old(self)@.on_anchored(entity_view(result)),
            final(self)@.wf(),
    {
        let ghost first = self@;
        let n: usize = self.linked.len();
        match result {
            Err(source) => self.fail(IngestError::Storage { stage: "write-anchor", source }),
            Ok(written) => {
                let ghost e = written.deep_view();
                let at: usize = self.at;
                assert(at < n);
                self.stored.push(written.copy());
                self.linked.set(at, written);
                assert(self@.linked =~= first.linked.update(first.at, e));
                assert(self@.stored =~= first.stored.push(e));
                assert(self@ == IngestView {
                    linked: first.linked.update(first.at, e),
                    stored: first.stored.push(e),
                    ..first
                });
                self.anchor_from(at + 1)
            },
        }
    }

    fn relate_from(&mut self, i: usize) -> (r: IngestAction)
        requires
            old(self)@.links_have_ids(),
            old(self)@.episode is Some,
            old(self)@.episode->0.id is Some,
        ensures
            (final(self)@, r.deep_view()) == old(self)@.relate(i as int),
            final(self)@.wf(),
    {
        let ghost first = self@;
        if i < self.linked.len() {
            assert(first.linked[i as int] == self.linked@[i as int].deep_view());
            assert(first.linked[i as int].id is Some);
            let from = self.episode.as_ref().unwrap().id.as_ref().unwrap().text();
            let to = self.linked[i].id.as_ref().unwrap().text();
            self.phase = IngestPhase::Relating;
            self.at = i;
            assert(self@ == IngestView { phase: IngestPhase::Relating, at: i as int, ..first });
            IngestAction::Relate {
                from,
                relation: "episode_mentions_entity".to_owned(),
                to,
                weight: mention_weight(self.tier),
            }
        } else {
            self.phase = IngestPhase::Committing;
            assert(self@ == IngestView { phase: IngestPhase::Committing, ..first });
            IngestAction::Commit
        }
    }

    /// The episode has been related to an entity.
    pub fn related(&mut self, result: Result<(), Error>) -> (r: IngestAction)
        requires
            old(self)@.phase == IngestPhase::Relating,
            old(self)@.wf(),
        ensures
            (final(self)@, r.deep_view()) == old(self)@.on_related(outcome_view(result)),
            final(self)@.wf(),
    {
        let n: usize = self.linked.len();
        match result {
            Err(source) => self.fail(IngestError::Storage { stage: "write-relate", source }),
            Ok(_) => {
                let at: usize = self.at;
                assert(at < n);
                self.relate_from(at + 1)
            },
        }
    }

    /// The transaction has been committed.
    pub fn committed(&mut self, result: Result<(), Error>, session: &mut SessionEntities) -> (r:
        IngestAction)
        requires
            old(self)@.phase == IngestPhase::Committing,
            old(self)@.wf(),
        ensures
            (final(self)@, r.deep_view()) == old(self)@.on_committed(outcome_view(result)),
            final(session)@ == old(self)@.session_after(old(session)@, outcome_view(result)),
            final(self)@.wf(),
    {
        let ghost first = self@;
        self.phase = IngestPhase::Over;
        assert(self@ == IngestView { phase: IngestPhase::Over, ..first });
        match result {
            Err(source) => IngestAction::Fail(IngestError::Storage { stage: "commit", source }),
            Ok(_) => {
                session.record_session_entities(&self.stored);
                let linked_entities = clone_entities(&self.linked);
                let episode = self.episode.as_ref().unwrap().copy();
                IngestAction::Finish(IngestionResult { episode, linked_entities })
            },
        }
    }
}

// --- Laws --------------------------------------------------------------------

/// How many answers an ingestion waits for at most, once the mentions are known.
pub open spec fn answers_left(state: IngestView) -> int {
    let mentions = state.mentions.len() - state.at;
    let linked = state.linked.len() as int;
    match state.phase {
        IngestPhase::Opening => 5 * mentions + 2 * linked + 6,
        IngestPhase::LookingUp => 5 * mentions + 2 * linked + 5,
        IngestPhase::EmbeddingEntity => 5 * mentions + 2 * linked + 4,
        IngestPhase::Merging => 5 * mentions + 2 * linked + 3,
        IngestPhase::Creating => 5 * mentions + 2 * linked + 3,
        IngestPhase::Embedding => 2 * linked + 5,
        IngestPhase::Scoring => 2 * linked + 4,
        IngestPhase::Writing => 2 * linked + 3,
        IngestPhase::Anchoring => 2 * linked - state.at + 2,
        IngestPhase::Relating => linked - state.at + 1,
        IngestPhase::Committing => 1,
        _ => 0,
    }
}

/// One answer takes an ingestion from one state to the next, with what to do
/// then.
pub open spec fn answered(before: IngestView, after: (IngestView, IngestActionView)) -> bool {
    match before.phase {
        IngestPhase::Extracting => exists|r: Result<Seq<MentionView>, IngestErrorView>|
            after == #[trigger] before.on_extracted(r),
        IngestPhase::Opening => exists|r: Result<(), ErrorView>|
            after == #[trigger] before.on_opened(r),
        IngestPhase::LookingUp => exists|
            r: Result<Seq<EntityView>, ErrorView>,
            session: Seq<EntityView>,
        |
            after == #[trigger] before.on_looked_up(r, session),
        IngestPhase::EmbeddingEntity => exists|r: Result<Seq<u32>, IngestErrorView>|
            after == #[trigger] before.on_entity_embedded(r),
        IngestPhase::Merging | IngestPhase::Creating => exists|r: Result<EntityView, ErrorView>|
            after == #[trigger] before.on_entity(r),
        IngestPhase::Embedding => exists|r: Result<Seq<u32>, IngestErrorView>|
            after == #[trigger] before.on_embedded(r),
        IngestPhase::Scoring => exists|r: Result<Weight, IngestErrorView>|
            after == #[trigger] before.on_scored(r),
        IngestPhase::Writing => exists|r: Result<EpisodeView, ErrorView>|
            after == #[trigger] before.on_written(r),
        IngestPhase::Anchoring => exists|r: Result<EntityView, ErrorView>|
            after == #[trigger] before.on_anchored(r),
        IngestPhase::Relating => exists|r: Result<(), ErrorView>|
            after == #[trigger] before.on_related(r),
        IngestPhase::Committing => exists|r: Result<(), ErrorView>|
            after == #[trigger] before.on_committed(r),
        IngestPhase::Over => false,
    }
}

proof fn lemma_one_per_name_is_no_longer(s: Seq<EntityView>)
    ensures
        one_per_name(s).len() <= s.len(),
    decreases s.len(),
{
    if s.len() > 0 {
        lemma_one_per_name_is_no_longer(s.drop_last());
    }
}

/// An ingestion comes to an end: each answer brings it closer, whatever the
/// answer is.
pub proof fn every_answer_counts(before: IngestView, after: (IngestView, IngestActionView))
    requires
        before.wf(),
        before.phase != IngestPhase::Extracting,
        answered(before, after),
    ensures
        0 <= answers_left(after.0) < answers_left(before),
{
    if before.phase == IngestPhase::Opening {
        lemma_next_explicit(before.mentions, before.at);
        ranked_is_a_sorted_permutation(before.linked);
        lemma_one_per_name_is_no_longer(ranked(before.linked));
    } else if before.phase == IngestPhase::Merging || before.phase == IngestPhase::Creating {
        let r = choose|r: Result<EntityView, ErrorView>| after == #[trigger] before.on_entity(r);
        if let Ok(written) = r {
            let state = IngestView {
                linked: before.linked.push(written),
                stored: before.stored.push(written),
                at: before.at + 1,
                ..before
            };
            lemma_next_explicit(state.mentions, state.at);
            ranked_is_a_sorted_permutation(state.linked);
            lemma_one_per_name_is_no_longer(ranked(state.linked));
        }
    } else if before.phase == IngestPhase::Writing {
        lemma_next_unanchored(before.linked, 0);
    } else if before.phase == IngestPhase::Anchoring {
        let r = choose|r: Result<EntityView, ErrorView>| after == #[trigger] before.on_anchored(r);
        if let Ok(written) = r {
            lemma_next_unanchored(before.linked.update(before.at, written), before.at + 1);
        }
    }
}

/// The action writes a record.
pub open spec fn is_write(action: IngestActionView) -> bool {
    match action {
        IngestActionView::Upsert(_) => true,
        IngestActionView::WriteEpisode(_) => true,
        IngestActionView::Relate { .. } => true,
        _ => false,
    }
}

/// The states of an ingestion from its start on, each with what to do then, and
/// each an answer behind the one before.
pub open spec fn is_ingestion(steps: Seq<(IngestView, IngestActionView)>) -> bool {
    &&& steps.len() > 0
    &&& steps[0].0.phase == IngestPhase::Extracting
    &&& steps[0].1 is Extract
    &&& forall|i: int| 0 < i < steps.len() ==> #[trigger] answered(steps[i - 1].0, steps[i])
}

/// Where the transaction stands after an answer.
proof fn lemma_transaction(before: IngestView, after: (IngestView, IngestActionView))
    requires
        answered(before, after),
    ensures
        before.phase != IngestPhase::Over,
        after.1 is Begin <==> after.0.phase == IngestPhase::Opening,
        after.0.phase == IngestPhase::Opening ==> before.phase == IngestPhase::Extracting,
        before.phase == IngestPhase::Opening && after.0.phase != IngestPhase::Over
            ==> after.0.in_transaction(),
        after.0.in_transaction() ==> before.in_transaction() || before.phase
            == IngestPhase::Opening,
        is_write(after.1) ==> after.0.in_transaction(),
        after.1 is Commit <==> after.0.phase == IngestPhase::Committing,
        before.phase == IngestPhase::Committing ==> after.1 is Finish || after.1 is Fail,
        after.1 is Finish ==> before.phase == IngestPhase::Committing,
        after.1 is Fail ==> before.phase == IngestPhase::Committing || !before.in_transaction(),
        after.1 is Cancel ==> before.in_transaction() && before.phase != IngestPhase::Committing,
        after.0.phase == IngestPhase::Over <==> after.1 is Finish || after.1 is Fail || after.1
            is Cancel,
        after.0.phase != IngestPhase::Extracting,
{
}

/// What is written is written inside the transaction: an ingestion opens it
/// before it writes anything, and it has neither committed nor cancelled it
/// then.
pub proof fn every_write_is_inside_the_transaction(
    steps: Seq<(IngestView, IngestActionView)>,
    k: int,
)
    requires
        is_ingestion(steps),
        0 <= k < steps.len(),
        is_write(steps[k].1),
    ensures
        exists|b: int| 0 <= b < k && (#[trigger] steps[b]).1 is Begin,
        forall|i: int|
            0 <= i < k ==> !((#[trigger] steps[i]).1 is Commit) && !(steps[i].1 is Cancel),
{
    assert(answered(steps[k - 1].0, steps[k]));
    lemma_transaction(steps[k - 1].0, steps[k]);
    lemma_opened(steps, k);
    lemma_still_open(steps, k);
}

/// A transaction that is open was opened.
proof fn lemma_opened(steps: Seq<(IngestView, IngestActionView)>, k: int)
    requires
        is_ingestion(steps),
        0 <= k < steps.len(),
        steps[k].0.in_transaction(),
    ensures
        exists|b: int| 0 <= b < k && (#[trigger] steps[b]).1 is Begin,
    decreases k,
{
    if k > 0 {
        assert(answered(steps[k - 1].0, steps[k]));
        lemma_transaction(steps[k - 1].0, steps[k]);
        if steps[k - 1].0.in_transaction() {
            lemma_opened(steps, k - 1);
        } else {
            assert(k - 1 > 0);
            let j = k - 1;
            assert(answered(steps[j - 1].0, steps[j]));
            lemma_transaction(steps[j - 1].0, steps[j]);
            assert(steps[k - 1].1 is Begin);
        }
    }
}

/// A transaction that is open was neither committed nor cancelled.
proof fn lemma_still_open(steps: Seq<(IngestView, IngestActionView)>, k: int)
    requires
        is_ingestion(steps),
        0 <= k < steps.len(),
        steps[k].0.phase != IngestPhase::Over,
    ensures
        forall|i: int|
            0 <= i < k ==> !((#[trigger] steps[i]).1 is Commit) && !(steps[i].1 is Cancel),
    decreases k,
{
    if k > 0 {
        assert(answered(steps[k - 1].0, steps[k]));
        lemma_transaction(steps[k - 1].0, steps[k]);
        lemma_still_open(steps, k - 1);
        if k > 1 {
            let j = k - 1;
            assert(answered(steps[j - 1].0, steps[j]));
            lemma_transaction(steps[j - 1].0, steps[j]);
        }
    }
}

/// A failed ingestion commits nothing: either it never asks for a commit, or the
/// store refused the one that it asked for last. A transaction that is open when
/// it fails is cancelled.
pub proof fn a_failed_ingestion_commits_nothing(steps: Seq<(IngestView, IngestActionView)>)
    requires
        is_ingestion(steps),
        steps.last().1 is Fail || steps.last().1 is Cancel,
    ensures
        forall|i: int|
            0 <= i < steps.len() && (#[trigger] steps[i]).1 is Commit ==> i == steps.len() - 2
                && steps.last().1 is Fail,
        steps.len() >= 2,
        steps[steps.len() - 2].0.in_transaction() && !(steps[steps.len() - 2].1 is Commit)
            ==> steps.last().1 is Cancel,
{
    let n = steps.len() - 1;
    assert(n > 0);
    assert(answered(steps[n - 1].0, steps[n]));
    lemma_transaction(steps[n - 1].0, steps[n]);
    lemma_still_open(steps, n - 1);
    if n > 1 {
        let j = n - 1;
        assert(answered(steps[j - 1].0, steps[j]));
        lemma_transaction(steps[j - 1].0, steps[j]);
    }
}

/// An ingestion that succeeds has committed: the commit is the last thing that
/// it asks for, and the store did it.
pub proof fn a_finished_ingestion_has_committed(steps: Seq<(IngestView, IngestActionView)>)
    requires
        is_ingestion(steps),
        steps.last().1 is Finish,
    ensures
        steps.len() >= 2,
        steps[steps.len() - 2].1 is Commit,
        steps.last() == steps[steps.len() - 2].0.on_committed(Ok(())),
{
    let n = steps.len() - 1;
    assert(n > 0);
    assert(answered(steps[n - 1].0, steps[n]));
    lemma_transaction(steps[n - 1].0, steps[n]);
    assert(n - 1 > 0);
    let j = n - 1;
    assert(answered(steps[j - 1].0, steps[j]));
    lemma_transaction(steps[j - 1].0, steps[j]);
    let r = choose|r: Result<(), ErrorView>| steps[n] == #[trigger] steps[n - 1].0.on_committed(r);
    assert(r is Ok);
}

/// A new entity is written with the embedding of its name; one that is known
/// keeps the embedding that it has.
pub proof fn new_entities_are_embedded(
    state: IngestView,
    rows: Seq<EntityView>,
    session: Seq<EntityView>,
    v: Seq<u32>,
)
    requires
        v.len() == state.dimension,
    ensures
        match state.candidate(rows, session) {
            None => {
                let asked = state.on_looked_up(Ok(rows), session);
                &&& asked.1 == (IngestActionView::Embed {
                    content: state.mentions[state.at].canonical_name,
                })
                &&& asked.0.on_entity_embedded(Ok(v)).1 is Upsert
                &&& asked.0.on_entity_embedded(Ok(v)).1->Upsert_0.embedding == Some(v)
            },
            Some(found) => {
                &&& state.on_looked_up(Ok(rows), session).1 is Upsert
                &&& state.on_looked_up(Ok(rows), session).1->Upsert_0.embedding == found.embedding
            },
        },
{
}

/// No explicit mention is passed over: between a mention and the one that is
/// looked up next there are only roles and pronouns.
pub proof fn no_explicit_mention_is_passed_over(state: IngestView, k: int)
    requires
        0 <= state.at <= k < state.mentions.len(),
        state.advance().0.phase == IngestPhase::LookingUp ==> k < state.advance().0.at,
    ensures
        state.mentions[k].reference_kind != ReferenceKind::Explicit,
{
    lemma_next_explicit(state.mentions, state.at);
}

/// The entities that the caller named are kept: each is looked up like any other
/// explicit mention.
pub proof fn given_entities_are_kept(state: IngestView, found: Seq<MentionView>, i: int)
    requires
        0 <= i < state.request.preidentified_entities.len(),
    ensures
        ({
            let after = state.on_extracted(Ok(found)).0;
            let k = found.len() + i;
            &&& k < after.mentions.len()
            &&& after.mentions[k].canonical_name == state.request.preidentified_entities[i]
            &&& after.mentions[k].reference_kind == ReferenceKind::Explicit
        }),
{
}

/// Once the mentions are dealt with, the linked entities stand in the order of
/// their names, each name once.
pub proof fn no_entity_is_linked_twice(state: IngestView)
    requires
        state.advance().0.phase == IngestPhase::Embedding,
    ensures
        names_ascend(state.advance().0.linked),
{
    links_are_distinct(state.linked);
}

/// Where an ingestion gets to whose explicit mentions all resolve to one stored
/// entity, which the store hands out as it was written last.
pub open spec fn resolved(state: IngestView, stored: EntityView, session: Seq<EntityView>) -> IngestView
    decreases
            if state.phase == IngestPhase::LookingUp {
                state.mentions.len() - state.at + 1
            } else {
                0
            },
{
    if state.phase != IngestPhase::LookingUp || !(0 <= state.at < state.mentions.len()) {
        state
    } else {
        proof {
            lemma_next_explicit(state.mentions, state.at + 1);
        }
        let merged = merged_entity(stored, state.mentions[state.at]);
        resolved(
            state.on_looked_up(Ok(seq![stored]), session).0.on_entity(Ok(merged)).0,
            merged,
            session,
        )
    }
}

proof fn lemma_merged_from_next(found: EntityView, mentions: Seq<MentionView>, i: int)
    requires
        0 <= i <= mentions.len(),
    ensures
        merged_with_all(found, mentions, i) == merged_with_all(
            found,
            mentions,
            next_explicit(mentions, i),
        ),
    decreases mentions.len() - i,
{
    if i < mentions.len() && mentions[i].reference_kind != ReferenceKind::Explicit {
        lemma_merged_from_next(found, mentions, i + 1);
    }
}

/// Nothing that a mention adds is lost: where all explicit mentions resolve to
/// one stored entity, the episode is linked to that one entity, with what every
/// one of them added.
pub proof fn every_mention_of_an_entity_is_merged(
    state: IngestView,
    stored: EntityView,
    session: Seq<EntityView>,
)
    requires
        state.phase == IngestPhase::LookingUp,
        0 <= state.at < state.mentions.len(),
        state.mentions[state.at].reference_kind == ReferenceKind::Explicit,
        forall|k: int|
            0 <= k < state.linked.len() ==> (#[trigger] state.linked[k]).canonical_name
                == stored.canonical_name,
    ensures
        resolved(state, stored, session).phase == IngestPhase::Embedding,
        resolved(state, stored, session).linked == seq![
            merged_with_all(stored, state.mentions, state.at),
        ],
    decreases state.mentions.len() - state.at,
{
    let m = state.mentions[state.at];
    let merged = merged_entity(stored, m);
    let answered = state.on_looked_up(Ok(seq![stored]), session).0;
    assert(seq![stored][0] == stored);
    let after = IngestView {
        linked: answered.linked.push(merged),
        stored: answered.stored.push(merged),
        at: answered.at + 1,
        ..answered
    };
    let next = answered.on_entity(Ok(merged)).0;
    assert(next == after.advance().0);
    assert(resolved(state, stored, session) == resolved(next, merged, session));
    lemma_next_explicit(after.mentions, after.at);
    lemma_merged_from_next(merged, after.mentions, after.at);
    assert(merged_with_all(stored, state.mentions, state.at) == merged_with_all(
        merged,
        state.mentions,
        state.at + 1,
    ));
    if next.phase == IngestPhase::LookingUp {
        assert forall|k: int| 0 <= k < next.linked.len() implies (
        #[trigger] next.linked[k]).canonical_name == merged.canonical_name by {
            if k < state.linked.len() {
                assert(next.linked[k] == state.linked[k]);
            }
        }
        every_mention_of_an_entity_is_merged(next, merged, session);
    } else {
        let links = linked_by_name(after.linked);
        assert(next.linked == links);
        links_are_distinct(after.linked);
        the_last_copy_is_linked(after.linked);
        assert(after.linked.last() == merged);
        assert(last_of_name(after.linked, merged.canonical_name) == Some(merged));
        assert(links.contains(merged));
        assert forall|k: int| 0 <= k < links.len() implies #[trigger] links[k] == merged by {
            assert(links.contains(links[k]));
            assert(after.linked.contains(links[k]));
            let j = choose|j: int| 0 <= j < after.linked.len() && after.linked[j] == links[k];
            if j < state.linked.len() {
                assert(after.linked[j] == state.linked[j]);
            }
            assert(links[k].canonical_name == merged.canonical_name);
        }
        if links.len() > 1 {
            assert(links[0].canonical_name != links[1].canonical_name);
        }
        assert(links =~= seq![merged]);
        assert(resolved(next, merged, session) == next);
    }
}

/// An anchor that an entity has already is never replaced.
pub proof fn the_first_anchor_stays(state: IngestView, i: int, k: int)
    requires
        0 <= i <= state.linked.len(),
        0 <= k < state.linked.len(),
        state.linked[k].anchor_record is Some,
    ensures
        state.anchor(i).0.linked[k] == state.linked[k],
{
    lemma_next_unanchored(state.linked, i);
}

/// Every entity up to position `n` has an anchor.
pub open spec fn anchored_up_to(state: IngestView, n: int) -> bool {
    forall|k: int| 0 <= k < n ==> (#[trigger] state.linked[k]).anchor_record is Some
}

/// What holds of an authoritative ingestion that has written its episode: every
/// entity that it has passed is anchored.
pub open spec fn anchoring_holds(state: IngestView) -> bool {
    if state.phase == IngestPhase::Anchoring {
        anchored_up_to(state, state.at)
    } else {
        state.phase != IngestPhase::Over ==> anchored_up_to(state, state.linked.len() as int)
    }
}

proof fn lemma_anchor(state: IngestView, i: int)
    requires
        0 <= i <= state.linked.len(),
        anchored_up_to(state, i),
    ensures
        ({
            let after = state.anchor(i).0;
            after.phase == IngestPhase::Anchoring && anchored_up_to(after, after.at) || anchored_up_to(
                after,
                after.linked.len() as int,
            )
        }),
{
    lemma_next_unanchored(state.linked, i);
}

/// The episode of an authoritative assertion becomes the anchor of each of its
/// entities that has none: where the store keeps the anchors that it is given,
/// the entities are anchored one after the other, and none is related before all
/// are anchored.
pub proof fn authoritative_episodes_anchor_their_entities(state: IngestView, episode: EpisodeView)
    requires
        state.tier == SignalTier::Tier1Authoritative,
    ensures
        anchoring_holds(state.on_written(Ok(episode)).0),
        forall|written: EntityView|
            state.wf() && state.phase == IngestPhase::Anchoring && anchoring_holds(state)
                && written.anchor_record is Some ==> anchoring_holds(
                (#[trigger] state.on_anchored(Ok(written))).0,
            ),
{
    lemma_anchor(IngestView { episode: Some(episode), ..state }, 0);
    assert forall|written: EntityView|
        state.wf() && state.phase == IngestPhase::Anchoring && anchoring_holds(state)
            && written.anchor_record is Some implies anchoring_holds(
        (#[trigger] state.on_anchored(Ok(written))).0,
    ) by {
        let next = IngestView {
            linked: state.linked.update(state.at, written),
            stored: state.stored.push(written),
            ..state
        };
        assert(anchored_up_to(next, state.at + 1));
        lemma_anchor(next, state.at + 1);
    }
}

/// Nothing of the request gets lost on the way to the episode, and the episode
/// points to every linked entity.
pub proof fn the_episode_holds_the_request(state: IngestView, k: int)
    requires
        state.links_have_ids(),
        0 <= k < state.linked.len(),
    ensures
        state.episode_to_write().content == state.request.content,
        state.episode_to_write().agent_id == state.request.agent_id,
        state.episode_to_write().metadata == state.request.metadata,
        state.episode_to_write().entities is Some,
        state.episode_to_write().entities->0.len() == state.linked.len(),
        state.episode_to_write().entities->0[k] == state.linked[k].id->0,
{
    lemma_ids(state.linked);
}

proof fn lemma_ids(entities: Seq<EntityView>)
    requires
        forall|i: int| 0 <= i < entities.len() ==> (#[trigger] entities[i]).id is Some,
    ensures
        ids_of(entities).len() == entities.len(),
        forall|k: int| 0 <= k < entities.len() ==> #[trigger] ids_of(entities)[k] == entities[k].id->0,
    decreases entities.len(),
{
    if entities.len() > 0 {
        let front = entities.drop_last();
        assert forall|i: int| 0 <= i < front.len() implies (#[trigger] front[i]).id is Some by {
            assert(front[i] == entities[i]);
        }
        lemma_ids(front);
        assert(entities[entities.len() - 1].id is Some);
    }
}

// --- Whole ingestions --------------------------------------------------------

/// What is fixed when an ingestion starts stays as it is, and so do the mentions
/// once they are known.
proof fn lemma_fixed(before: IngestView, after: (IngestView, IngestActionView))
    requires
        answered(before, after),
    ensures
        after.0.request == before.request,
        after.0.tier == before.tier,
        after.0.now == before.now,
        after.0.model == before.model,
        after.0.dimension == before.dimension,
        before.phase != IngestPhase::Extracting ==> after.0.mentions == before.mentions,
        before.episode is Some && before.phase != IngestPhase::Writing ==> after.0.episode
            == before.episode,
{
}

/// All states of an ingestion are well-formed.
pub open spec fn all_wf(steps: Seq<(IngestView, IngestActionView)>) -> bool {
    forall|i: int| 0 <= i < steps.len() ==> (#[trigger] steps[i]).0.wf()
}

/// The relation of the episode of a state to the entity at position `k`.
pub open spec fn relates(state: IngestView, k: int) -> IngestActionView {
    IngestActionView::Relate {
        from: id_text(state.episode->0.id->0),
        relation: "episode_mentions_entity"@,
        to: id_text(state.linked[k].id->0),
        weight: thousandths_spec(mention_strength(state.tier)),
    }
}

proof fn lemma_relating(before: IngestView, after: (IngestView, IngestActionView))
    requires
        before.wf(),
        answered(before, after),
    ensures
        after.1 is Relate <==> after.0.phase == IngestPhase::Relating,
        after.0.phase == IngestPhase::Relating ==> after.1 == relates(after.0, after.0.at) && 0
            <= after.0.at < after.0.linked.len(),
        after.0.phase == IngestPhase::Relating && after.0.at > 0 ==> before.phase
            == IngestPhase::Relating,
        before.phase == IngestPhase::Relating ==> {
            &&& after.0.linked == before.linked
            &&& after.0.episode == before.episode
            &&& after.0.phase == IngestPhase::Relating || after.0.phase == IngestPhase::Committing
                || after.0.phase == IngestPhase::Over
            &&& after.0.phase == IngestPhase::Relating ==> after.0.at == before.at + 1
            &&& after.0.phase == IngestPhase::Committing ==> before.at == before.linked.len() - 1
        },
        after.0.phase == IngestPhase::Committing && before.phase != IngestPhase::Relating
            ==> after.0.linked.len() == 0,
{
}

/// From a relation on, the entities that follow are related, one after the other,
/// up to the commit.
proof fn lemma_relations_up_to_the_commit(
    steps: Seq<(IngestView, IngestActionView)>,
    i: int,
)
    requires
        is_ingestion(steps),
        all_wf(steps),
        steps.last().1 is Finish,
        0 <= i < steps.len(),
        steps[i].0.phase == IngestPhase::Relating,
    ensures
        i + steps[i].0.linked.len() - steps[i].0.at == steps.len() - 2,
        steps[i].0.linked == steps[steps.len() - 2].0.linked,
        steps[i].0.episode == steps[steps.len() - 2].0.episode,
    decreases steps.len() - i,
{
    let n = steps.len() - 1;
    assert(steps[n].0.phase == IngestPhase::Over) by {
        assert(n > 0);
        assert(answered(steps[n - 1].0, steps[n]));
        lemma_transaction(steps[n - 1].0, steps[n]);
    }
    let j = i + 1;
    assert(answered(steps[j - 1].0, steps[j]));
    assert(steps[i].0.wf());
    lemma_relating(steps[j - 1].0, steps[j]);
    lemma_transaction(steps[j - 1].0, steps[j]);
    if steps[j].0.phase == IngestPhase::Relating {
        lemma_relations_up_to_the_commit(steps, j);
    } else if steps[j].0.phase == IngestPhase::Committing {
        let k = j + 1;
        assert(answered(steps[k - 1].0, steps[k]));
        lemma_transaction(steps[k - 1].0, steps[k]);
        if k < n {
            let m = k + 1;
            assert(answered(steps[m - 1].0, steps[m]));
            lemma_transaction(steps[m - 1].0, steps[m]);
        }
    } else {
        if j < n {
            let m = j + 1;
            assert(answered(steps[m - 1].0, steps[m]));
            lemma_transaction(steps[m - 1].0, steps[m]);
        }
    }
}

/// Before the relation of one entity, those before it are related.
proof fn lemma_relations_before(
    steps: Seq<(IngestView, IngestActionView)>,
    i: int,
    k: int,
)
    requires
        is_ingestion(steps),
        all_wf(steps),
        0 <= i < steps.len(),
        steps[i].0.phase == IngestPhase::Relating,
        0 <= k <= steps[i].0.at,
    ensures
        0 < i - (steps[i].0.at - k),
        steps[i - (steps[i].0.at - k)].1 == relates(steps[i].0, k),
    decreases i,
{
    assert(i > 0);
    assert(answered(steps[i - 1].0, steps[i]));
    assert(steps[i - 1].0.wf());
    lemma_relating(steps[i - 1].0, steps[i]);
    lemma_fixed(steps[i - 1].0, steps[i]);
    if k < steps[i].0.at {
        lemma_relations_before(steps, i - 1, k);
        assert(steps[i - 1].0.at == steps[i].0.at - 1);
        assert(relates(steps[i - 1].0, k) == relates(steps[i].0, k));
    }
}

/// Every entity that an episode is linked to is related to it, once: an ingestion
/// that finishes asks, right before the commit, for one relation from the written
/// episode to each of the entities that it returns, in their order, and for no
/// other.
pub proof fn every_linked_entity_is_related(steps: Seq<(IngestView, IngestActionView)>)
    requires
        is_ingestion(steps),
        all_wf(steps),
        steps.last().1 is Finish,
    ensures
        ({
            let result = steps.last().1->Finish_0;
            let first = steps.len() - 2 - result.linked_entities.len();
            &&& 0 < first
            &&& steps[steps.len() - 2].1 is Commit
            &&& forall|k: int|
                0 <= k < result.linked_entities.len() ==> (#[trigger] steps[first + k]).1 == (
                IngestActionView::Relate {
                    from: id_text(result.episode.id->0),
                    relation: "episode_mentions_entity"@,
                    to: id_text(result.linked_entities[k].id->0),
                    weight: thousandths_spec(mention_strength(steps[0].0.tier)),
                })
            &&& forall|i: int|
                0 <= i < steps.len() && (#[trigger] steps[i]).1 is Relate ==> first <= i < first
                    + result.linked_entities.len()
        }),
{
    let n = steps.len() - 1;
    let c = n - 1;
    let result = steps.last().1->Finish_0;
    a_finished_ingestion_has_committed(steps);
    let state = steps[c].0;
    assert(result.linked_entities == state.linked && result.episode == state.episode->0);
    let len = state.linked.len() as int;
    let first = c - len;
    assert(c > 0);
    assert(answered(steps[c - 1].0, steps[c]));
    assert(steps[c - 1].0.wf() && steps[c].0.wf());
    lemma_transaction(steps[c - 1].0, steps[c]);
    lemma_relating(steps[c - 1].0, steps[c]);
    lemma_tier_is_fixed(steps, c);
    assert forall|k: int| 0 <= k < len implies (#[trigger] steps[first + k]).1 == relates(
        state,
        k,
    ) by {
        let i = c - 1;
        assert(steps[i].0.phase == IngestPhase::Relating);
        lemma_relations_before(steps, i, k);
        lemma_tier_is_fixed(steps, i);
        assert(i - (steps[i].0.at - k) == first + k);
        assert(relates(steps[i].0, k) == relates(state, k));
    }
    if len > 0 {
        lemma_relations_before(steps, c - 1, 0);
    } else {
        lemma_opened(steps, c);
    }
    assert forall|i: int| 0 <= i < steps.len() && (#[trigger] steps[i]).1 is Relate implies first
        <= i < first + len by {
        assert(i > 0);
        assert(answered(steps[i - 1].0, steps[i]));
        assert(steps[i - 1].0.wf());
        lemma_relating(steps[i - 1].0, steps[i]);
        lemma_relations_up_to_the_commit(steps, i);
    }
}

proof fn lemma_tier_is_fixed(steps: Seq<(IngestView, IngestActionView)>, i: int)
    requires
        is_ingestion(steps),
        0 <= i < steps.len(),
    ensures
        steps[i].0.tier == steps[0].0.tier,
        steps[i].0.request == steps[0].0.request,
    decreases i,
{
    if i > 0 {
        lemma_tier_is_fixed(steps, i - 1);
        assert(answered(steps[i - 1].0, steps[i]));
        lemma_fixed(steps[i - 1].0, steps[i]);
    }
}

/// The mention at position `k` was looked up by step `i`.
pub open spec fn was_looked_up(
    steps: Seq<(IngestView, IngestActionView)>,
    i: int,
    agent: Seq<char>,
    name: Seq<char>,
) -> bool {
    exists|j: int|
        0 <= j <= i && (#[trigger] steps[j]).1 == (IngestActionView::LookUp {
            agent_id: agent,
            canonical_name: name,
        })
}

/// The explicit mentions before position `n` were looked up.
spec fn looked_up_before(steps: Seq<(IngestView, IngestActionView)>, i: int, n: int) -> bool {
    forall|k: int|
        0 <= k < n && k < steps[i].0.mentions.len() && (
        #[trigger] steps[i].0.mentions[k]).reference_kind == ReferenceKind::Explicit
            ==> was_looked_up(
            steps,
            i,
            steps[i].0.request.agent_id,
            steps[i].0.mentions[k].canonical_name,
        )
}

spec fn lookups_hold(steps: Seq<(IngestView, IngestActionView)>, i: int) -> bool {
    let state = steps[i].0;
    match state.phase {
        IngestPhase::Extracting | IngestPhase::Over => true,
        IngestPhase::Opening => state.at == 0,
        IngestPhase::LookingUp
        | IngestPhase::Merging
        | IngestPhase::EmbeddingEntity
        | IngestPhase::Creating => looked_up_before(steps, i, state.at + 1),
        _ => looked_up_before(steps, i, state.mentions.len() as int),
    }
}

proof fn lemma_lookups(steps: Seq<(IngestView, IngestActionView)>, i: int)
    requires
        is_ingestion(steps),
        all_wf(steps),
        0 <= i < steps.len(),
    ensures
        lookups_hold(steps, i),
    decreases i,
{
    if i > 0 {
        lemma_lookups(steps, i - 1);
        assert(answered(steps[i - 1].0, steps[i]));
        lemma_fixed(steps[i - 1].0, steps[i]);
        let before = steps[i - 1].0;
        let after = steps[i].0;
        assert(before.wf() && after.wf());
        assert forall|name: Seq<char>| #[trigger] was_looked_up(
            steps,
            i - 1,
            before.request.agent_id,
            name,
        ) implies was_looked_up(steps, i, before.request.agent_id, name) by {
            let j = choose|j: int|
                0 <= j <= i - 1 && (#[trigger] steps[j]).1 == (IngestActionView::LookUp {
                    agent_id: before.request.agent_id,
                    canonical_name: name,
                });
            assert(0 <= j <= i);
        }
        if after.phase == IngestPhase::LookingUp || after.phase == IngestPhase::Embedding {
            let from = if before.phase == IngestPhase::Opening {
                0
            } else {
                before.at + 1
            };
            lemma_next_explicit(before.mentions, from);
            let n = if after.phase == IngestPhase::LookingUp {
                after.at + 1
            } else {
                after.mentions.len() as int
            };
            assert(before.phase == IngestPhase::Opening || before.phase == IngestPhase::Merging
                || before.phase == IngestPhase::Creating);
            assert forall|k: int|
                0 <= k < n && k < after.mentions.len() && (
                #[trigger] after.mentions[k]).reference_kind == ReferenceKind::Explicit implies was_looked_up(
                steps,
                i,
                after.request.agent_id,
                after.mentions[k].canonical_name,
            ) by {
                if k < from {
                    assert(before.mentions[k].reference_kind == ReferenceKind::Explicit);
                    assert(was_looked_up(
                        steps,
                        i - 1,
                        before.request.agent_id,
                        before.mentions[k].canonical_name,
                    ));
                } else {
                    assert(next_explicit(before.mentions, from) <= k);
                    assert(after.phase == IngestPhase::LookingUp && k == after.at);
                    assert(steps[i].1 == (IngestActionView::LookUp {
                        agent_id: after.request.agent_id,
                        canonical_name: after.mentions[k].canonical_name,
                    }));
                }
            }
        } else if after.phase != IngestPhase::Over && after.phase != IngestPhase::Opening {
            let n = if after.phase == IngestPhase::Merging || after.phase
                == IngestPhase::EmbeddingEntity || after.phase == IngestPhase::Creating {
                after.at + 1
            } else {
                after.mentions.len() as int
            };
            assert(looked_up_before(steps, i - 1, n));
            assert forall|k: int|
                0 <= k < n && k < after.mentions.len() && (
                #[trigger] after.mentions[k]).reference_kind == ReferenceKind::Explicit implies was_looked_up(
                steps,
                i,
                after.request.agent_id,
                after.mentions[k].canonical_name,
            ) by {
                assert(before.mentions[k].reference_kind == ReferenceKind::Explicit);
                assert(was_looked_up(
                    steps,
                    i - 1,
                    before.request.agent_id,
                    before.mentions[k].canonical_name,
                ));
            }
        }
    }
}

/// Every explicit mention is looked up: an ingestion that finishes has asked for
/// the entities of the request's agent with the name of each of them.
pub proof fn every_explicit_mention_is_looked_up(
    steps: Seq<(IngestView, IngestActionView)>,
    k: int,
)
    requires
        is_ingestion(steps),
        all_wf(steps),
        steps.last().1 is Finish,
        0 <= k < steps[steps.len() - 2].0.mentions.len(),
        steps[steps.len() - 2].0.mentions[k].reference_kind == ReferenceKind::Explicit,
    ensures
        exists|j: int|
            0 <= j < steps.len() && (#[trigger] steps[j]).1 == (IngestActionView::LookUp {
                agent_id: steps[0].0.request.agent_id,
                canonical_name: steps[steps.len() - 2].0.mentions[k].canonical_name,
            }),
{
    let c = steps.len() - 2;
    a_finished_ingestion_has_committed(steps);
    assert(c > 0);
    assert(answered(steps[c - 1].0, steps[c]));
    lemma_transaction(steps[c - 1].0, steps[c]);
    lemma_lookups(steps, c);
    lemma_tier_is_fixed(steps, c);
    let name = steps[c].0.mentions[k].canonical_name;
    assert(was_looked_up(steps, c, steps[c].0.request.agent_id, name));
    let j = choose|j: int|
        0 <= j <= c && (#[trigger] steps[j]).1 == (IngestActionView::LookUp {
            agent_id: steps[c].0.request.agent_id,
            canonical_name: name,
        });
    assert(0 <= j < steps.len());
}

/// The mentions of an ingestion are those that were extracted, as they were, and
/// then one for each entity that the caller named: an explicit one, of the
/// request's tier.
pub proof fn no_mention_is_lost(state: IngestView, found: Seq<MentionView>)
    ensures
        ({
            let mentions = state.on_extracted(Ok(found)).0.mentions;
            let names = state.request.preidentified_entities;
            &&& mentions.len() == found.len() + names.len()
            &&& forall|i: int| 0 <= i < found.len() ==> #[trigger] mentions[i] == found[i]
            &&& forall|i: int|
                0 <= i < names.len() ==> #[trigger] mentions[found.len() + i] == (MentionView {
                    surface: names[i],
                    canonical_name: names[i],
                    entity_type: "other"@,
                    source_tier: state.tier,
                    confidence: Weight { millionths: 900_000 },
                    reference_kind: ReferenceKind::Explicit,
                })
        }),
{
}

/// The tier of what is stored: the one that the request gives, else that of its
/// kind of content.
pub proof fn the_request_may_give_the_tier(req: StoreView)
    ensures
        req.source_tier is Some ==> tier_of(req) == req.source_tier->0,
        req.source_tier is None ==> tier_of(req) == req.content_type.default_tier(),
{
}

/// Who a mention is of: the first entity that the store has under its name; where
/// it has none, one that the mention may be short for, of the session or of this
/// ingestion, the later copy before the earlier. That entity gets what the mention
/// adds; where there is none, a new one is made, once its name is embedded.
pub proof fn a_mention_is_of_a_known_entity_or_a_new_one(
    state: IngestView,
    rows: Seq<EntityView>,
    session: Seq<EntityView>,
    v: Seq<u32>,
)
    requires
        v.len() == state.dimension,
    ensures
        ({
            let mention = state.mentions[state.at];
            let short = soft_match(
                with_entities(session, state.stored),
                state.request.agent_id,
                mention.canonical_name,
            );
            let (after, action) = state.on_looked_up(Ok(rows), session);
            &&& rows.len() > 0 ==> action == IngestActionView::Upsert(
                merged_entity(rows[0], mention),
            )
            &&& rows.len() == 0 && short is Some ==> action == IngestActionView::Upsert(
                merged_entity(short->0, mention),
            )
            &&& rows.len() == 0 && short is None ==> {
                &&& action == IngestActionView::Embed { content: mention.canonical_name }
                &&& after.on_entity_embedded(Ok(v)).1 == IngestActionView::Upsert(
                    EntityView {
                        id: None,
                        agent_id: state.request.agent_id,
                        org_id: state.request.org_id,
                        canonical_name: mention.canonical_name,
                        aliases: seq![mention.surface],
                        entity_type: mention.entity_type,
                        attributes: "{}"@,
                        embedding: Some(v),
                        confidence: mention.confidence,
                        confidence_tier: mention.source_tier,
                        anchor_record: None,
                        created_at: None,
                        last_updated: None,
                        disambiguation_log: None,
                    },
                )
            }
        }),
{
}

/// What holds of the entities that were written, before and after the mentions
/// are dealt with.
spec fn links_hold(state: IngestView) -> bool {
    match state.phase {
        IngestPhase::Extracting | IngestPhase::Opening => state.linked == state.stored
            && state.stored.len() == 0,
        IngestPhase::LookingUp
        | IngestPhase::Merging
        | IngestPhase::EmbeddingEntity
        | IngestPhase::Creating => state.linked == state.stored,
        IngestPhase::Embedding | IngestPhase::Scoring | IngestPhase::Writing => state.linked
            == linked_by_name(state.stored),
        _ => true,
    }
}

proof fn lemma_links(steps: Seq<(IngestView, IngestActionView)>, i: int)
    requires
        is_ingestion(steps),
        steps[0].0.linked.len() == 0,
        steps[0].0.stored.len() == 0,
        0 <= i < steps.len(),
    ensures
        links_hold(steps[i].0),
    decreases i,
{
    if i > 0 {
        lemma_links(steps, i - 1);
        assert(answered(steps[i - 1].0, steps[i]));
    } else {
        assert(steps[0].0.linked =~= steps[0].0.stored);
    }
}

/// The episode that is written is linked to what was written for its mentions:
/// the copy of each entity that was written last, by the order of their names.
pub proof fn an_episode_is_linked_to_what_was_written(
    steps: Seq<(IngestView, IngestActionView)>,
    i: int,
)
    requires
        is_ingestion(steps),
        steps[0].0.linked.len() == 0,
        steps[0].0.stored.len() == 0,
        0 <= i < steps.len(),
        steps[i].1 is WriteEpisode,
    ensures
        steps[i].0.linked == linked_by_name(steps[i].0.stored),
        forall|e: EntityView|
            last_of_name(steps[i].0.stored, e.canonical_name) == Some(e) ==> #[trigger]
            steps[i].0.linked.contains(e),
{
    lemma_links(steps, i);
    assert(i > 0);
    assert(answered(steps[i - 1].0, steps[i]));
    assert(steps[i].0.phase == IngestPhase::Writing);
    the_last_copy_is_linked(steps[i].0.stored);
}

/// What an ingestion notes of each entity that was written: it stands last among
/// those that were, and the next mention is the next to be dealt with.
pub proof fn a_written_entity_is_noted(state: IngestView, written: EntityView)
    requires
        0 <= state.at < state.mentions.len(),
    ensures
        ({
            let after = state.on_entity(Ok(written)).0;
            &&& after.stored == state.stored.push(written)
            &&& after.phase == IngestPhase::LookingUp ==> after.linked == state.linked.push(written)
                && after.at > state.at
            &&& after.phase == IngestPhase::LookingUp || after.phase == IngestPhase::Embedding
        }),
{
    lemma_next_explicit(state.mentions, state.at + 1);
}

/// What is written of an episode: what the request says, the embedding of its
/// content, its importance, and the ids of its entities, if it has any; nothing
/// of it is consolidated.
pub proof fn an_episode_says_what_the_request_says(state: IngestView)
    ensures
        ({
            let e = state.episode_to_write();
            let req = state.request;
            &&& e.id is None
            &&& e.agent_id == req.agent_id
            &&& e.org_id == req.org_id
            &&& e.user_id == req.user_id
            &&& e.content == req.content
            &&& e.content_type == req.content_type.name()
            &&& e.embedding == state.embedding
            &&& e.importance == state.importance
            &&& e.entities is Some <==> state.linked.len() > 0
            &&& e.valid_time_start == (if req.valid_time is Some {
                req.valid_time->0
            } else {
                state.now
            })
            &&& e.valid_time_end == req.valid_time_end
            &&& e.transaction_time is None
            &&& !e.consolidated
            &&& e.consolidated_at is None
            &&& e.summary is None
            &&& e.source_tier == state.tier
            &&& e.metadata == req.metadata
        }),
{
}

/// From the embedding to the episode: the content of the request is what is
/// embedded; its importance is the one that the request gives, brought into range,
/// or else the one that the scorer gives.
pub proof fn an_episode_is_embedded_and_scored(state: IngestView, v: Seq<u32>, w: Weight)
    requires
        v.len() == state.dimension,
    ensures
        state.advance().0.phase == IngestPhase::Embedding ==> state.advance().1
            == (IngestActionView::Embed { content: state.request.content }),
        match state.request.importance_override {
            Some(given) => {
                let (after, action) = state.on_embedded(Ok(v));
                &&& action is WriteEpisode
                &&& action->WriteEpisode_0.embedding == Some(v)
                &&& action->WriteEpisode_0.importance.millionths == if given.millionths < 0 {
                    0
                } else if given.millionths > 1_000_000 {
                    1_000_000
                } else {
                    given.millionths as int
                }
            },
            None => {
                let (after, action) = state.on_embedded(Ok(v));
                &&& action is Score
                &&& after.on_scored(Ok(w)).1 is WriteEpisode
                &&& after.on_scored(Ok(w)).1->WriteEpisode_0.embedding == Some(v)
                &&& after.on_scored(Ok(w)).1->WriteEpisode_0.importance == w
            },
        },
{
}

/// An embedding is taken where it has the model's dimension, and refused where it
/// has another; a failure that says nothing more is put down to the model.
pub proof fn an_embedding_has_the_models_dimension(
    v: Seq<u32>,
    model: Seq<char>,
    dimension: nat,
    e: IngestErrorView,
)
    ensures
        accepted_embedding(Ok(v), model, dimension) is Ok <==> v.len() == dimension,
        v.len() == dimension ==> accepted_embedding(Ok(v), model, dimension)->Ok_0 == v,
        v.len() != dimension ==> accepted_embedding(Ok(v), model, dimension)->Err_0 == (
        IngestErrorView::Embedding {
            model,
            message: "embedder returned "@ + decimal_of(v.len()) + "d, expected "@ + decimal_of(
                dimension,
            ) + "d"@,
        }),
        accepted_embedding(Err(e), model, dimension) is Err,
        e is Other ==> accepted_embedding(Err(e), model, dimension)->Err_0 == (
        IngestErrorView::Embedding { model, message: e->Other_0 }),
        !(e is Other) ==> accepted_embedding(Err(e), model, dimension)->Err_0 == e,
{
}

/// An authoritative episode becomes the anchor of each of its entities that has
/// none, and of no other; no other episode becomes an anchor.
pub proof fn only_authoritative_episodes_are_anchors(
    state: IngestView,
    episode: EpisodeView,
    i: int,
)
    requires
        0 <= i <= state.linked.len(),
    ensures
        state.tier != SignalTier::Tier1Authoritative ==> !(state.on_written(Ok(episode)).1
            is Upsert),
        state.anchor(i).1 matches IngestActionView::Upsert(e) ==> {
            let j = state.anchor(i).0.at;
            &&& i <= j < state.linked.len()
            &&& state.linked[j].anchor_record is None
            &&& e == EntityView { anchor_record: state.episode->0.id, ..state.linked[j] }
            &&& forall|k: int|
                i <= k < j ==> (#[trigger] state.linked[k]).anchor_record is Some
        },
        !(state.anchor(i).1 is Upsert) ==> forall|k: int|
            i <= k < state.linked.len() ==> (#[trigger] state.linked[k]).anchor_record is Some,
{
    lemma_next_unanchored(state.linked, i);
}

/// After an entity was anchored the next one without an anchor is, as the store
/// gave the first back.
pub proof fn anchoring_goes_on_with_the_next(state: IngestView, written: EntityView)
    requires
        0 <= state.at < state.linked.len(),
    ensures
        ({
            let linked = state.linked.update(state.at, written);
            let next = IngestView { linked, stored: state.stored.push(written), ..state };
            state.on_anchored(Ok(written)) == next.anchor(state.at + 1)
        }),
        state.tier == SignalTier::Tier1Authoritative ==> forall|episode: EpisodeView|
            #[trigger] state.on_written(Ok(episode)) == (IngestView {
                episode: Some(episode),
                ..state
            }).anchor(0),
{
}

/// What the caller gets is what the store wrote: the episode as it gave it back,
/// and the entities that it is linked to; and a committed ingestion adds all that
/// it wrote to what the session knows, an uncommitted one nothing.
pub proof fn the_result_is_what_was_written(
    state: IngestView,
    episode: EpisodeView,
    session: Seq<EntityView>,
    e: ErrorView,
)
    ensures
        state.on_written(Ok(episode)).0.episode == Some(episode),
        state.episode is Some ==> state.on_committed(Ok(())).1 == IngestActionView::Finish(
            IngestionView { episode: state.episode->0, linked_entities: state.linked },
        ),
        state.session_after(session, Ok(())) == with_entities(session, state.stored),
        state.session_after(session, Err(e)) == session,
        state.on_committed(Err(e)).1 == IngestActionView::Fail(
            IngestErrorView::Storage { stage: "commit"@, source: e },
        ),
{
    let written = IngestView { episode: Some(episode), ..state };
    if state.tier == SignalTier::Tier1Authoritative {
        assert(written.anchor(0).0.episode == Some(episode));
    }
}

/// A failure of the store names the stage at which it came.
pub proof fn a_failure_names_its_stage(state: IngestView, e: ErrorView, session: Seq<EntityView>)
    ensures
        ({
            let fails = |action: IngestActionView, stage: Seq<char>|
                action == (if state.in_transaction() {
                    IngestActionView::Cancel(IngestErrorView::Storage { stage, source: e })
                } else {
                    IngestActionView::Fail(IngestErrorView::Storage { stage, source: e })
                });
            &&& fails(state.on_opened(Err(e)).1, "begin"@)
            &&& fails(state.on_looked_up(Err(e), session).1, "disambiguate"@)
            &&& state.phase == IngestPhase::Merging ==> fails(
                state.on_entity(Err(e)).1,
                "disambiguate-merge"@,
            )
            &&& state.phase == IngestPhase::Creating ==> fails(
                state.on_entity(Err(e)).1,
                "disambiguate-create"@,
            )
            &&& fails(state.on_written(Err(e)).1, "write_episode"@)
            &&& fails(state.on_anchored(Err(e)).1, "write-anchor"@)
            &&& fails(state.on_related(Err(e)).1, "write-relate"@)
        }),
{
}

/// How an ingestion starts: by asking for the mentions of the request's content;
/// nothing is known, linked or written yet.
pub proof fn an_ingestion_starts_with_nothing(
    request: StoreView,
    extractor: Seq<char>,
    model: Seq<char>,
    dimension: nat,
    now: Timestamp,
)
    ensures
        ({
            let state = IngestView::start(request, extractor, model, dimension, now);
            &&& state.request == request
            &&& state.extractor == extractor
            &&& state.model == model
            &&& state.dimension == dimension
            &&& state.now == now
            &&& state.tier == tier_of(request)
            &&& state.phase == IngestPhase::Extracting
            &&& state.mentions.len() == 0
            &&& state.linked.len() == 0
            &&& state.stored.len() == 0
            &&& state.episode is None
        }),
{
}

proof fn lemma_no_write_before(steps: Seq<(IngestView, IngestActionView)>, i: int)
    requires
        is_ingestion(steps),
        0 <= i < steps.len(),
        steps[i].0.phase == IngestPhase::Extracting || steps[i].0.phase == IngestPhase::Opening,
    ensures
        forall|k: int| 0 <= k <= i ==> !is_write((#[trigger] steps[k]).1),
    decreases i,
{
    if i > 0 {
        assert(answered(steps[i - 1].0, steps[i]));
        lemma_transaction(steps[i - 1].0, steps[i]);
        lemma_no_write_before(steps, i - 1);
    }
}

/// An ingestion that fails without a cancellation has nothing to take back: it has
/// not asked for a single write, or else it has asked for the commit, which the
/// store refused.
pub proof fn what_was_written_is_cancelled(steps: Seq<(IngestView, IngestActionView)>)
    requires
        is_ingestion(steps),
        steps.last().1 is Fail,
    ensures
        (steps.len() >= 2 && steps[steps.len() - 2].1 is Commit) || forall|i: int|
            0 <= i < steps.len() ==> !is_write((#[trigger] steps[i]).1),
{
    let n = steps.len() - 1;
    assert(n > 0);
    assert(answered(steps[n - 1].0, steps[n]));
    lemma_transaction(steps[n - 1].0, steps[n]);
    if !(steps[n - 1].1 is Commit) {
        if n > 1 {
            let j = n - 1;
            assert(answered(steps[j - 1].0, steps[j]));
            lemma_transaction(steps[j - 1].0, steps[j]);
        }
        assert(steps[n - 1].0.phase == IngestPhase::Extracting || steps[n - 1].0.phase
            == IngestPhase::Opening);
        lemma_no_write_before(steps, n - 1);
    }
}

/// A transaction is open from the answer to the begin to the end.
pub proof fn a_transaction_is_open_in_between(state: IngestView)
    ensures
        state.in_transaction() <==> state.phase != IngestPhase::Extracting && state.phase
            != IngestPhase::Opening && state.phase != IngestPhase::Over,
{
}

/// A failure of the extractor, the embedding model or the scorer is the failure of
/// the ingestion; one that says nothing more is put down to the extractor or the
/// model.
pub proof fn a_failing_model_fails_the_ingestion(state: IngestView, e: IngestErrorView)
    ensures
        ({
            let fails = |action: IngestActionView, cause: IngestErrorView|
                action == (if state.in_transaction() {
                    IngestActionView::Cancel(cause)
                } else {
                    IngestActionView::Fail(cause)
                });
            &&& fails(
                state.on_extracted(Err(e)).1,
                if e is Other {
                    IngestErrorView::Extraction { extractor: state.extractor, message: e->Other_0 }
                } else {
                    e
                },
            )
            &&& fails(
                state.on_embedded(Err(e)).1,
                if e is Other {
                    IngestErrorView::Embedding { model: state.model, message: e->Other_0 }
                } else {
                    e
                },
            )
            &&& fails(
                state.on_entity_embedded(Err(e)).1,
                if e is Other {
                    IngestErrorView::Embedding { model: state.model, message: e->Other_0 }
                } else {
                    e
                },
            )
            &&& fails(state.on_scored(Err(e)).1, e)
        }),
{
}

} // verus!

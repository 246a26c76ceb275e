//! What the memory core answers.
use vstd::prelude::*;
use crate::storage::record::{Entity, RecordId, Weight};
use crate::time::Timestamp;

verus! {

/// What is to happen with an episode next.
#[derive(Debug)]
pub struct QueueHint {
    /// The stage that processes the episode next.
    pub stage: String,
    /// How soon; higher is sooner.
    pub priority: Weight,
}

impl QueueHint {
    /// The episode is queued for consolidation.
    pub fn consolidation(priority: Weight) -> (r: Self)
        ensures
            r.stage@ == "consolidation"@,
            r.priority == priority,
    {
        QueueHint { stage: "consolidation".to_owned(), priority }
    }
}

/// The answer to a successful store.
#[derive(Debug)]
pub struct EpisodeRecord {
    pub episode_id: Option<RecordId>,
    pub entities: Vec<Entity>,
    pub importance: Weight,
    pub queued_for: QueueHint,
}

/// One of the five layers of memory.
#[derive(Debug, Clone, Copy, PartialEq, Eq, Hash, Structural)]
pub enum SourceLayer {
    Episodic,
    Semantic,
    Procedural,
    Prospective,
    Preference,
}

impl DeepView for SourceLayer {
    type V = SourceLayer;

    open spec fn deep_view(&self) -> SourceLayer {
        *self
    }
}

impl SourceLayer {
    /// The layer's name.
    pub open spec fn name(self) -> Seq<char> {
        match self {
            SourceLayer::Episodic => "episodic"@,
            SourceLayer::Semantic => "semantic"@,
            SourceLayer::Procedural => "procedural"@,
            SourceLayer::Prospective => "prospective"@,
            SourceLayer::Preference => "preference"@,
        }
    }

    /// The layer's name.
    pub fn as_str(self) -> (r: &'static str)
        ensures
            r@ == self.name(),
    {
        match self {
            SourceLayer::Episodic => "episodic",
            SourceLayer::Semantic => "semantic",
            SourceLayer::Procedural => "procedural",
            SourceLayer::Prospective => "prospective",
            SourceLayer::Preference => "preference",
        }
    }

    /// Every layer has a name, and no two layers share one.
    pub proof fn names_differ(a: SourceLayer, b: SourceLayer)
        ensures
            a.name().len() > 0,
            a.name() == b.name() ==> a == b,
    {
        reveal_strlit("episodic");
        reveal_strlit("semantic");
        reveal_strlit("procedural");
        reveal_strlit("prospective");
        reveal_strlit("preference");
        assert("episodic"@[0] == 'e' && "semantic"@[0] == 's' && "procedural"@[0] == 'p'
            && "prospective"@[0] == 'p' && "preference"@[0] == 'p');
        assert("procedural"@[3] == 'c' && "prospective"@[3] == 's' && "preference"@[3] == 'f');
    }
}

/// The score of a hit: the product of relevance, recency and importance, as a
/// fraction that counts millionths.
#[derive(Debug, Clone, Copy, PartialEq, Eq, Structural)]
pub struct Score {
    pub numerator: u128,
    pub denominator: u128,
}

/// A record that contributed to a recall.
#[derive(Debug)]
pub struct SourceRecord {
    pub layer: SourceLayer,
    /// The record's id, `<table>:<key>`.
    pub record_id: String,
    /// The quoted text.
    pub excerpt: String,
    pub score: Score,
    /// The time that the record's recency is measured from.
    pub valid_time: Timestamp,
}

/// What a [`SourceRecord`] holds.
pub struct SourceView {
    pub layer: SourceLayer,
    pub record_id: Seq<char>,
    pub excerpt: Seq<char>,
    pub score: Score,
    pub valid_time: Timestamp,
}

impl DeepView for SourceRecord {
    type V = SourceView;

    open spec fn deep_view(&self) -> SourceView {
        SourceView {
            layer: self.layer,
            record_id: self.record_id@,
            excerpt: self.excerpt@,
            score: self.score,
            valid_time: self.valid_time,
        }
    }
}

/// The answer to a recall.
#[derive(Debug)]
pub struct RecallResponse {
    /// The text for the agent's prompt; empty where nothing was found.
    pub context: String,
    /// The records that contributed, best first.
    pub sources: Vec<SourceRecord>,
    /// The layers that were consulted.
    pub query_types: Vec<SourceLayer>,
}

/// What a [`RecallResponse`] holds.
pub struct ResponseView {
    pub context: Seq<char>,
    pub sources: Seq<SourceView>,
    pub query_types: Seq<SourceLayer>,
}

impl DeepView for RecallResponse {
    type V = ResponseView;

    open spec fn deep_view(&self) -> ResponseView {
        ResponseView {
            context: self.context@,
            sources: self.sources.deep_view(),
            query_types: self.query_types@,
        }
    }
}

impl SourceLayer {
    /// The name of each layer.
    pub proof fn each_layer_has_its_name(self)
        ensures
            self == SourceLayer::Episodic ==> self.name() == "episodic"@,
            self == SourceLayer::Semantic ==> self.name() == "semantic"@,
            self == SourceLayer::Procedural ==> self.name() == "procedural"@,
            self == SourceLayer::Prospective ==> self.name() == "prospective"@,
            self == SourceLayer::Preference ==> self.name() == "preference"@,
    {
    }
}

} // verus!

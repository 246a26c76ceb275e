//! What is written to the database for each record: typed fields by name. A
//! field without a value is left out, since the schema refuses a null.
use vstd::prelude::*;
use crate::storage::record::{
    clone_embedding, clone_ids, Concept, ConceptView, Entity, EntityView, Episode, EpisodeView,
    Preference, PreferenceView, Procedure, ProcedureView, RecordId, RecordIdView, Task, TaskView,
    Weight,
};
use crate::text::clone_texts;
use crate::time::Timestamp;

verus! {

/// A typed value of a field.
#[derive(Debug)]
pub enum FieldValue {
    Text(String),
    Bool(bool),
    Int(i64),
    Real(Weight),
    Time(Timestamp),
    /// The bit patterns of single-precision numbers.
    Reals(Vec<u32>),
    Record(RecordId),
    Records(Vec<RecordId>),
    Texts(Vec<String>),
    /// A JSON text.
    Json(String),
    /// JSON texts.
    Jsons(Vec<String>),
}

/// What a [`FieldValue`] holds.
pub enum ValueView {
    Text(Seq<char>),
    Bool(bool),
    Int(i64),
    Real(Weight),
    Time(Timestamp),
    Reals(Seq<u32>),
    Record(RecordIdView),
    Records(Seq<RecordIdView>),
    Texts(Seq<Seq<char>>),
    Json(Seq<char>),
    Jsons(Seq<Seq<char>>),
}

impl DeepView for FieldValue {
    type V = ValueView;

    open spec fn deep_view(&self) -> ValueView {
        match self {
            FieldValue::Text(s) => ValueView::Text(s@),
            FieldValue::Bool(b) => ValueView::Bool(*b),
            FieldValue::Int(n) => ValueView::Int(*n),
            FieldValue::Real(w) => ValueView::Real(*w),
            FieldValue::Time(t) => ValueView::Time(*t),
            FieldValue::Reals(v) => ValueView::Reals(v.deep_view()),
            FieldValue::Record(id) => ValueView::Record(id.deep_view()),
            FieldValue::Records(ids) => ValueView::Records(ids.deep_view()),
            FieldValue::Texts(v) => ValueView::Texts(v.deep_view()),
            FieldValue::Json(s) => ValueView::Json(s@),
            FieldValue::Jsons(v) => ValueView::Jsons(v.deep_view()),
        }
    }
}

/// A field: its name and its value.
#[derive(Debug)]
pub struct Field {
    pub name: String,
    pub value: FieldValue,
}

impl DeepView for Field {
    type V = (Seq<char>, ValueView);

    open spec fn deep_view(&self) -> (Seq<char>, ValueView) {
        (self.name@, self.value.deep_view())
    }
}

/// The fields of a record, in the order in which they were put in.
#[derive(Debug)]
pub struct Content {
    pub fields: Vec<Field>,
}

impl DeepView for Content {
    type V = Seq<(Seq<char>, ValueView)>;

    open spec fn deep_view(&self) -> Seq<(Seq<char>, ValueView)> {
        self.fields.deep_view()
    }
}

/// One field.
pub open spec fn one(name: Seq<char>, value: ValueView) -> Seq<(Seq<char>, ValueView)> {
    seq![(name, value)]
}

/// One field, where there is a text for it.
pub open spec fn text_if(name: Seq<char>, v: Option<Seq<char>>) -> Seq<(Seq<char>, ValueView)> {
    match v {
        Some(s) => one(name, ValueView::Text(s)),
        None => Seq::empty(),
    }
}

/// One field, where there is a time for it.
pub open spec fn time_if(name: Seq<char>, v: Option<Timestamp>) -> Seq<(Seq<char>, ValueView)> {
    match v {
        Some(t) => one(name, ValueView::Time(t)),
        None => Seq::empty(),
    }
}

/// One field, where there is an embedding for it.
pub open spec fn reals_if(name: Seq<char>, v: Option<Seq<u32>>) -> Seq<(Seq<char>, ValueView)> {
    match v {
        Some(e) => one(name, ValueView::Reals(e)),
        None => Seq::empty(),
    }
}

/// One field, where there are texts for it.
pub open spec fn texts_if(name: Seq<char>, v: Option<Seq<Seq<char>>>) -> Seq<
    (Seq<char>, ValueView),
> {
    match v {
        Some(t) => one(name, ValueView::Texts(t)),
        None => Seq::empty(),
    }
}

/// One field, where there are JSON texts for it.
pub open spec fn jsons_if(name: Seq<char>, v: Option<Seq<Seq<char>>>) -> Seq<
    (Seq<char>, ValueView),
> {
    match v {
        Some(t) => one(name, ValueView::Jsons(t)),
        None => Seq::empty(),
    }
}

/// One field, where there is a record for it.
pub open spec fn record_if(name: Seq<char>, v: Option<RecordIdView>) -> Seq<
    (Seq<char>, ValueView),
> {
    match v {
        Some(id) => one(name, ValueView::Record(id)),
        None => Seq::empty(),
    }
}

/// One field, where there are records for it.
pub open spec fn records_if(name: Seq<char>, v: Option<Seq<RecordIdView>>) -> Seq<
    (Seq<char>, ValueView),
> {
    match v {
        Some(ids) => one(name, ValueView::Records(ids)),
        None => Seq::empty(),
    }
}

impl Content {
    fn new() -> (r: Content)
        ensures
            r.deep_view() == Seq::<(Seq<char>, ValueView)>::empty(),
    {
        let r = Content { fields: Vec::new() };
        assert(r.deep_view() =~= Seq::<(Seq<char>, ValueView)>::empty());
        r
    }

    fn put(&mut self, name: &str, value: FieldValue)
        ensures
            final(self).deep_view() == old(self).deep_view() + one(name@, value.deep_view()),
    {
        let ghost v = value.deep_view();
        let ghost before = self.deep_view();
        self.fields.push(Field { name: name.to_owned(), value });
        assert(self.deep_view() =~= before + one(name@, v));
    }

    fn put_text(&mut self, name: &str, v: &str)
        ensures
            final(self).deep_view() == old(self).deep_view() + one(name@, ValueView::Text(v@)),
    {
        self.put(name, FieldValue::Text(v.to_owned()));
    }

    fn put_opt_str(&mut self, name: &str, v: &Option<String>)
        ensures
            final(self).deep_view() == old(self).deep_view() + text_if(name@, v.deep_view()),
    {
        let ghost before = self.deep_view();
        if let Some(s) = v {
            self.put(name, FieldValue::Text(s.clone()));
        }
        assert(self.deep_view() =~= before + text_if(name@, v.deep_view()));
    }

    fn put_opt_datetime(&mut self, name: &str, v: &Option<Timestamp>)
        ensures
            final(self).deep_view() == old(self).deep_view() + time_if(name@, *v),
    {
        let ghost before = self.deep_view();
        if let Some(t) = v {
            self.put(name, FieldValue::Time(*t));
        }
        assert(self.deep_view() =~= before + time_if(name@, *v));
    }

    fn put_opt_reals(&mut self, name: &str, v: &Option<Vec<u32>>)
        ensures
            final(self).deep_view() == old(self).deep_view() + reals_if(name@, v.deep_view()),
    {
        let ghost before = self.deep_view();
        if let Some(e) = v {
            self.put(name, FieldValue::Reals(clone_embedding(e)));
        }
        assert(self.deep_view() =~= before + reals_if(name@, v.deep_view()));
    }

    fn put_opt_texts(&mut self, name: &str, v: &Option<Vec<String>>)
        ensures
            final(self).deep_view() == old(self).deep_view() + texts_if(name@, v.deep_view()),
    {
        let ghost before = self.deep_view();
        if let Some(t) = v {
            self.put(name, FieldValue::Texts(clone_texts(t)));
        }
        assert(self.deep_view() =~= before + texts_if(name@, v.deep_view()));
    }

    fn put_opt_jsons(&mut self, name: &str, v: &Option<Vec<String>>)
        ensures
            final(self).deep_view() == old(self).deep_view() + jsons_if(name@, v.deep_view()),
    {
        let ghost before = self.deep_view();
        if let Some(t) = v {
            self.put(name, FieldValue::Jsons(clone_texts(t)));
        }
        assert(self.deep_view() =~= before + jsons_if(name@, v.deep_view()));
    }

    fn put_opt_record(&mut self, name: &str, v: &Option<RecordId>)
        ensures
            final(self).deep_view() == old(self).deep_view() + record_if(name@, v.deep_view()),
    {
        let ghost before = self.deep_view();
        if let Some(id) = v {
            self.put(name, FieldValue::Record(id.copy()));
        }
        assert(self.deep_view() =~= before + record_if(name@, v.deep_view()));
    }

    fn put_opt_records(&mut self, name: &str, v: &Option<Vec<RecordId>>)
        ensures
            final(self).deep_view() == old(self).deep_view() + records_if(name@, v.deep_view()),
    {
        let ghost before = self.deep_view();
        if let Some(ids) = v {
            self.put(name, FieldValue::Records(clone_ids(ids)));
        }
        assert(self.deep_view() =~= before + records_if(name@, v.deep_view()));
    }
}

/// The time, or `now` where there is none.
pub open spec fn or_now(t: Option<Timestamp>, now: Timestamp) -> Timestamp {
    match t {
        Some(t) => t,
        None => now,
    }
}

/// The fields of an episode.
pub open spec fn episode_fields(x: EpisodeView) -> Seq<(Seq<char>, ValueView)> {
    Seq::empty()
        + one("agent_id"@, ValueView::Text(x.agent_id))
        + text_if("org_id"@, x.org_id)
        + text_if("user_id"@, x.user_id)
        + one("content"@, ValueView::Text(x.content))
        + one("content_type"@, ValueView::Text(x.content_type))
        + reals_if("embedding"@, x.embedding)
        + one("importance"@, ValueView::Real(x.importance))
        + records_if("entities"@, x.entities)
        + one("valid_time_start"@, ValueView::Time(x.valid_time_start))
        + time_if("valid_time_end"@, x.valid_time_end)
        + one("consolidated"@, ValueView::Bool(x.consolidated))
        + time_if("consolidated_at"@, x.consolidated_at)
        + text_if("summary"@, x.summary)
        + one("source_tier"@, ValueView::Int(x.source_tier.number_spec() as i64))
        + one("metadata"@, ValueView::Json(x.metadata))
}

/// The fields of an episode.
pub fn episode_to_map(x: &Episode) -> (r: Content)
    ensures
        r.deep_view() == episode_fields(x.deep_view()),
{
    let mut m = Content::new();
    m.put_text("agent_id", x.agent_id.as_str());
    m.put_opt_str("org_id", &x.org_id);
    m.put_opt_str("user_id", &x.user_id);
    m.put_text("content", x.content.as_str());
    m.put_text("content_type", x.content_type.as_str());
    m.put_opt_reals("embedding", &x.embedding);
    m.put("importance", FieldValue::Real(x.importance));
    m.put_opt_records("entities", &x.entities);
    m.put("valid_time_start", FieldValue::Time(x.valid_time_start));
    m.put_opt_datetime("valid_time_end", &x.valid_time_end);
    m.put("consolidated", FieldValue::Bool(x.consolidated));
    m.put_opt_datetime("consolidated_at", &x.consolidated_at);
    m.put_opt_str("summary", &x.summary);
    m.put("source_tier", FieldValue::Int(x.source_tier.number() as i64));
    m.put("metadata", FieldValue::Json(x.metadata.clone()));
    m
}

/// The fields of an entity. A time that it lacks is `now`: the schema wants both.
pub open spec fn entity_fields(x: EntityView, now: Timestamp) -> Seq<(Seq<char>, ValueView)> {
    Seq::empty()
        + one("agent_id"@, ValueView::Text(x.agent_id))
        + text_if("org_id"@, x.org_id)
        + one("canonical_name"@, ValueView::Text(x.canonical_name))
        + one("aliases"@, ValueView::Texts(x.aliases))
        + one("entity_type"@, ValueView::Text(x.entity_type))
        + one("attributes"@, ValueView::Json(x.attributes))
        + reals_if("embedding"@, x.embedding)
        + one("confidence"@, ValueView::Real(x.confidence))
        + one("confidence_tier"@, ValueView::Int(x.confidence_tier.number_spec() as i64))
        + record_if("anchor_record"@, x.anchor_record)
        + jsons_if("disambiguation_log"@, x.disambiguation_log)
        + one("created_at"@, ValueView::Time(or_now(x.created_at, now)))
        + one("last_updated"@, ValueView::Time(or_now(x.last_updated, now)))
}

/// The fields of an entity. A time that it lacks is `now`: the schema wants both.
pub fn entity_to_map(x: &Entity, now: Timestamp) -> (r: Content)
    ensures
        r.deep_view() == entity_fields(x.deep_view(), now),
{
    let mut m = Content::new();
    m.put_text("agent_id", x.agent_id.as_str());
    m.put_opt_str("org_id", &x.org_id);
    m.put_text("canonical_name", x.canonical_name.as_str());
    m.put("aliases", FieldValue::Texts(clone_texts(&x.aliases)));
    m.put_text("entity_type", x.entity_type.as_str());
    m.put("attributes", FieldValue::Json(x.attributes.clone()));
    m.put_opt_reals("embedding", &x.embedding);
    m.put("confidence", FieldValue::Real(x.confidence));
    m.put("confidence_tier", FieldValue::Int(x.confidence_tier.number() as i64));
    m.put_opt_record("anchor_record", &x.anchor_record);
    m.put_opt_jsons("disambiguation_log", &x.disambiguation_log);
    m.put("created_at", FieldValue::Time(x.created_at.unwrap_or(now)));
    m.put("last_updated", FieldValue::Time(x.last_updated.unwrap_or(now)));
    m
}

/// The fields of a concept.
pub open spec fn concept_fields(x: ConceptView) -> Seq<(Seq<char>, ValueView)> {
    Seq::empty()
        + one("agent_id"@, ValueView::Text(x.agent_id))
        + text_if("org_id"@, x.org_id)
        + one("content"@, ValueView::Text(x.content))
        + reals_if("embedding"@, x.embedding)
        + one("confidence"@, ValueView::Real(x.confidence))
        + one("source_tier"@, ValueView::Int(x.source_tier.number_spec() as i64))
        + one("reinforcement_count"@, ValueView::Int(x.reinforcement_count as i64))
        + one("decay_rate"@, ValueView::Real(x.decay_rate))
        + one("inferred"@, ValueView::Bool(x.inferred))
        + texts_if("inference_chain"@, x.inference_chain)
        + one("valid_time_start"@, ValueView::Time(x.valid_time_start))
        + time_if("valid_time_end"@, x.valid_time_end)
}

/// The fields of a concept.
pub fn concept_to_map(x: &Concept) -> (r: Content)
    ensures
        r.deep_view() == concept_fields(x.deep_view()),
{
    let mut m = Content::new();
    m.put_text("agent_id", x.agent_id.as_str());
    m.put_opt_str("org_id", &x.org_id);
    m.put_text("content", x.content.as_str());
    m.put_opt_reals("embedding", &x.embedding);
    m.put("confidence", FieldValue::Real(x.confidence));
    m.put("source_tier", FieldValue::Int(x.source_tier.number() as i64));
    m.put("reinforcement_count", FieldValue::Int(x.reinforcement_count as i64));
    m.put("decay_rate", FieldValue::Real(x.decay_rate));
    m.put("inferred", FieldValue::Bool(x.inferred));
    m.put_opt_texts("inference_chain", &x.inference_chain);
    m.put("valid_time_start", FieldValue::Time(x.valid_time_start));
    m.put_opt_datetime("valid_time_end", &x.valid_time_end);
    m
}

/// The fields of a task.
pub open spec fn task_fields(x: TaskView) -> Seq<(Seq<char>, ValueView)> {
    Seq::empty()
        + one("agent_id"@, ValueView::Text(x.agent_id))
        + text_if("org_id"@, x.org_id)
        + text_if("user_id"@, x.user_id)
        + one("content"@, ValueView::Text(x.content))
        + one("trigger_type"@, ValueView::Text(x.trigger_type))
        + one("trigger_value"@, ValueView::Text(x.trigger_value))
        + one("status"@, ValueView::Text(x.status.name()))
        + time_if("triggered_at"@, x.triggered_at)
}

/// The fields of a task.
pub fn task_to_map(x: &Task) -> (r: Content)
    ensures
        r.deep_view() == task_fields(x.deep_view()),
{
    let mut m = Content::new();
    m.put_text("agent_id", x.agent_id.as_str());
    m.put_opt_str("org_id", &x.org_id);
    m.put_opt_str("user_id", &x.user_id);
    m.put_text("content", x.content.as_str());
    m.put_text("trigger_type", x.trigger_type.as_str());
    m.put_text("trigger_value", x.trigger_value.as_str());
    m.put_text("status", x.status.as_str());
    m.put_opt_datetime("triggered_at", &x.triggered_at);
    m
}

/// The fields of a procedure.
pub open spec fn procedure_fields(x: ProcedureView) -> Seq<(Seq<char>, ValueView)> {
    Seq::empty()
        + one("agent_id"@, ValueView::Text(x.agent_id))
        + text_if("org_id"@, x.org_id)
        + one("name"@, ValueView::Text(x.name))
        + one("procedure_type"@, ValueView::Text(x.procedure_type))
        + one("content"@, ValueView::Text(x.content))
        + reals_if("embedding"@, x.embedding)
        + one("trigger_patterns"@, ValueView::Texts(x.trigger_patterns))
        + one("usage_count"@, ValueView::Int(x.usage_count as i64))
        + time_if("last_used"@, x.last_used)
}

/// The fields of a procedure.
pub fn procedure_to_map(x: &Procedure) -> (r: Content)
    ensures
        r.deep_view() == procedure_fields(x.deep_view()),
{
    let mut m = Content::new();
    m.put_text("agent_id", x.agent_id.as_str());
    m.put_opt_str("org_id", &x.org_id);
    m.put_text("name", x.name.as_str());
    m.put_text("procedure_type", x.procedure_type.as_str());
    m.put_text("content", x.content.as_str());
    m.put_opt_reals("embedding", &x.embedding);
    m.put("trigger_patterns", FieldValue::Texts(clone_texts(&x.trigger_patterns)));
    m.put("usage_count", FieldValue::Int(x.usage_count as i64));
    m.put_opt_datetime("last_used", &x.last_used);
    m
}

/// The fields of a preference.
pub open spec fn preference_fields(x: PreferenceView) -> Seq<(Seq<char>, ValueView)> {
    Seq::empty()
        + one("agent_id"@, ValueView::Text(x.agent_id))
        + text_if("org_id"@, x.org_id)
        + text_if("user_id"@, x.user_id)
        + one("category"@, ValueView::Text(x.category))
        + one("content"@, ValueView::Text(x.content))
        + one("direction"@, ValueView::Text(x.direction.name()))
        + one("strength"@, ValueView::Real(x.strength))
        + one("source_tier"@, ValueView::Int(x.source_tier.number_spec() as i64))
        + one("evidence_count"@, ValueView::Int(x.evidence_count as i64))
        + one("valid_time_start"@, ValueView::Time(x.valid_time_start))
        + time_if("valid_time_end"@, x.valid_time_end)
}

/// The fields of a preference.
pub fn preference_to_map(x: &Preference) -> (r: Content)
    ensures
        r.deep_view() == preference_fields(x.deep_view()),
{
    let mut m = Content::new();
    m.put_text("agent_id", x.agent_id.as_str());
    m.put_opt_str("org_id", &x.org_id);
    m.put_opt_str("user_id", &x.user_id);
    m.put_text("category", x.category.as_str());
    m.put_text("content", x.content.as_str());
    m.put_text("direction", x.direction.as_str());
    m.put("strength", FieldValue::Real(x.strength));
    m.put("source_tier", FieldValue::Int(x.source_tier.number() as i64));
    m.put("evidence_count", FieldValue::Int(x.evidence_count as i64));
    m.put("valid_time_start", FieldValue::Time(x.valid_time_start));
    m.put_opt_datetime("valid_time_end", &x.valid_time_end);
    m
}

/// A time that a record has is kept; one that it lacks is now.
pub proof fn a_time_is_kept(t: Option<Timestamp>, now: Timestamp)
    ensures
        t is Some ==> or_now(t, now) == t->0,
        t is None ==> or_now(t, now) == now,
{
}

} // verus!

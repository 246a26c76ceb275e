//! The records of the memory store.
use vstd::prelude::*;
use crate::text::{
    clone_opt_text, clone_texts, decimal, decimal_of, same_text, signed_decimal, signed_decimal_of,
};
use crate::time::Timestamp;

verus! {

// --- Signal tiers ------------------------------------------------------------

/// How strong the evidence for a record is, strongest first.
#[derive(Debug, Clone, Copy, PartialEq, Eq, Structural)]
pub enum SignalTier {
    Tier1Authoritative,
    Tier2Structured,
    Tier3Conversational,
    Tier4Implied,
    Tier5Behavioral,
}

impl DeepView for SignalTier {
    type V = SignalTier;

    open spec fn deep_view(&self) -> SignalTier {
        *self
    }
}

impl SignalTier {
    /// The tier's number, from one for the strongest to five.
    pub open spec fn number_spec(self) -> u8 {
        match self {
            SignalTier::Tier1Authoritative => 1,
            SignalTier::Tier2Structured => 2,
            SignalTier::Tier3Conversational => 3,
            SignalTier::Tier4Implied => 4,
            SignalTier::Tier5Behavioral => 5,
        }
    }

    /// The tier's number, from one for the strongest to five.
    pub fn number(self) -> (r: u8)
        ensures
            r == self.number_spec(),
            1 <= r <= 5,
    {
        match self {
            SignalTier::Tier1Authoritative => 1,
            SignalTier::Tier2Structured => 2,
            SignalTier::Tier3Conversational => 3,
            SignalTier::Tier4Implied => 4,
            SignalTier::Tier5Behavioral => 5,
        }
    }

    /// The tier of that number.
    pub fn from_number(v: u8) -> (r: Result<SignalTier, String>)
        ensures
            match r {
                Ok(t) => t.number_spec() == v,
                Err(e) => !(1 <= v <= 5) && e@ == "invalid signal tier: "@ + decimal_of(v as nat),
            },
    {
        match v {
            1 => Ok(SignalTier::Tier1Authoritative),
            2 => Ok(SignalTier::Tier2Structured),
            3 => Ok(SignalTier::Tier3Conversational),
            4 => Ok(SignalTier::Tier4Implied),
            5 => Ok(SignalTier::Tier5Behavioral),
            _ => Err("invalid signal tier: ".to_owned().concat(decimal(v as u128).as_str())),
        }
    }

    /// The tier of a number as the database stores it.
    pub fn from_stored(n: i64) -> (r: Result<SignalTier, String>)
        ensures
            match r {
                Ok(t) => t.number_spec() == n,
                Err(e) => !(1 <= n <= 5) && e@ == "invalid signal tier: "@ + signed_decimal_of(
                    n as int,
                ),
            },
    {
        if 0 <= n && n <= 255 {
            if let Ok(t) = SignalTier::from_number(n as u8) {
                return Ok(t);
            }
        }
        Err("invalid signal tier: ".to_owned().concat(signed_decimal(n).as_str()))
    }

    /// A number stands for one tier only: reading back a tier's number gives
    /// the tier.
    pub proof fn numbers_differ(a: SignalTier, b: SignalTier)
        ensures
            a.number_spec() == b.number_spec() ==> a == b,
    {
    }
}

impl From<SignalTier> for u8 {
    fn from(t: SignalTier) -> (r: u8) {
        t.number()
    }
}

impl vstd::std_specs::convert::FromSpecImpl<SignalTier> for u8 {
    open spec fn obeys_from_spec() -> bool {
        true
    }

    open spec fn from_spec(t: SignalTier) -> u8 {
        t.number_spec()
    }
}

// --- Weights -----------------------------------------------------------------

/// A real number such as an importance or a confidence, in millionths.
#[derive(Debug, Clone, Copy, PartialEq, Eq, Structural)]
pub struct Weight {
    pub millionths: i64,
}

impl DeepView for Weight {
    type V = Weight;

    open spec fn deep_view(&self) -> Weight {
        *self
    }
}

/// The weight of `n` thousandths.
pub open spec fn thousandths_spec(n: int) -> Weight {
    Weight { millionths: (n * 1000) as i64 }
}

impl Weight {
    /// The weight lies between zero and one.
    pub open spec fn in_unit_range(self) -> bool {
        0 <= self.millionths <= 1_000_000
    }

    /// The weight of `n` thousandths.
    pub fn thousandths(n: u32) -> (r: Weight)
        ensures
            r == thousandths_spec(n as int),
            r.millionths == n * 1000,
    {
        Weight { millionths: n as i64 * 1000 }
    }

    /// The weight, moved to the nearest bound where it lies outside of zero to
    /// one.
    pub open spec fn clamped_spec(self) -> Weight {
        if self.millionths < 0 {
            Weight { millionths: 0 }
        } else if self.millionths > 1_000_000 {
            Weight { millionths: 1_000_000 }
        } else {
            self
        }
    }

    /// The weight, moved to the nearest bound where it lies outside of zero to
    /// one.
    pub fn clamped(self) -> (r: Weight)
        ensures
            r == self.clamped_spec(),
            r.in_unit_range(),
    {
        if self.millionths < 0 {
            Weight { millionths: 0 }
        } else if self.millionths > 1_000_000 {
            Weight { millionths: 1_000_000 }
        } else {
            self
        }
    }
}

// --- Record ids --------------------------------------------------------------

/// The key of a record id.
#[derive(Debug, Clone)]
pub enum RecordKey {
    Text(String),
    Number(i64),
    Uuid(String),
    /// A composite key, by its printed form.
    Composite(String),
}

/// What a [`RecordKey`] holds.
pub enum KeyView {
    Text(Seq<char>),
    Number(i64),
    Uuid(Seq<char>),
    Composite(Seq<char>),
}

impl DeepView for RecordKey {
    type V = KeyView;

    open spec fn deep_view(&self) -> KeyView {
        match self {
            RecordKey::Text(s) => KeyView::Text(s@),
            RecordKey::Number(n) => KeyView::Number(*n),
            RecordKey::Uuid(s) => KeyView::Uuid(s@),
            RecordKey::Composite(s) => KeyView::Composite(s@),
        }
    }
}

/// The id of a record: a table and a key.
#[derive(Debug, Clone)]
pub struct RecordId {
    pub table: String,
    pub key: RecordKey,
}

/// What a [`RecordId`] holds.
pub struct RecordIdView {
    pub table: Seq<char>,
    pub key: KeyView,
}

impl DeepView for RecordId {
    type V = RecordIdView;

    open spec fn deep_view(&self) -> RecordIdView {
        RecordIdView { table: self.table@, key: self.key.deep_view() }
    }
}

/// The text of a key in a query.
pub open spec fn key_text(key: KeyView) -> Seq<char> {
    match key {
        KeyView::Text(s) => s,
        KeyView::Number(n) => signed_decimal_of(n as int),
        KeyView::Uuid(s) => s,
        KeyView::Composite(s) => s,
    }
}

/// The text of a record id, `<table>:<key>`.
pub open spec fn id_text(id: RecordIdView) -> Seq<char> {
    id.table + ":"@ + key_text(id.key)
}

/// The text of a key in a query.
pub fn format_record_id_key(key: &RecordKey) -> (r: String)
    ensures
        r@ == key_text(key.deep_view()),
{
    match key {
        RecordKey::Text(s) => s.clone(),
        RecordKey::Number(n) => signed_decimal(*n),
        RecordKey::Uuid(s) => s.clone(),
        RecordKey::Composite(s) => s.clone(),
    }
}

impl RecordId {
    /// The id of `key` in `table`.
    pub fn new(table: &str, key: &str) -> (r: RecordId)
        ensures
            r.deep_view() == (RecordIdView { table: table@, key: KeyView::Text(key@) }),
    {
        RecordId { table: table.to_owned(), key: RecordKey::Text(key.to_owned()) }
    }

    /// The text of the id, `<table>:<key>`.
    pub fn text(&self) -> (r: String)
        ensures
            r@ == id_text(self.deep_view()),
    {
        self.table.clone().concat(":").concat(format_record_id_key(&self.key).as_str())
    }

    /// A copy of the id.
    pub fn copy(&self) -> (r: RecordId)
        ensures
            r.deep_view() == self.deep_view(),
    {
        RecordId {
            table: self.table.clone(),
            key: match &self.key {
                RecordKey::Text(s) => RecordKey::Text(s.clone()),
                RecordKey::Number(n) => RecordKey::Number(*n),
                RecordKey::Uuid(s) => RecordKey::Uuid(s.clone()),
                RecordKey::Composite(s) => RecordKey::Composite(s.clone()),
            },
        }
    }

    /// Whether two ids are equal.
    pub fn same(&self, other: &RecordId) -> (r: bool)
        ensures
            r == (self.deep_view() == other.deep_view()),
    {
        let keys = match (&self.key, &other.key) {
            (RecordKey::Text(a), RecordKey::Text(b)) => same_text(a.as_str(), b.as_str()),
            (RecordKey::Number(a), RecordKey::Number(b)) => *a == *b,
            (RecordKey::Uuid(a), RecordKey::Uuid(b)) => same_text(a.as_str(), b.as_str()),
            (RecordKey::Composite(a), RecordKey::Composite(b)) => {
                same_text(a.as_str(), b.as_str())
            },
            _ => false,
        };
        keys && same_text(self.table.as_str(), other.table.as_str())
    }
}

/// A copy of an optional id.
pub fn clone_opt_id(id: &Option<RecordId>) -> (r: Option<RecordId>)
    ensures
        r.deep_view() == id.deep_view(),
{
    match id {
        Some(i) => Some(i.copy()),
        None => None,
    }
}

/// Whether two optional ids are equal.
pub fn same_opt_id(a: &Option<RecordId>, b: &Option<RecordId>) -> (r: bool)
    ensures
        r == (a.deep_view() == b.deep_view()),
{
    match (a, b) {
        (Some(x), Some(y)) => x.same(y),
        (None, None) => true,
        _ => false,
    }
}

/// A copy of every id in `v`.
pub fn clone_ids(v: &Vec<RecordId>) -> (r: Vec<RecordId>)
    ensures
        r.deep_view() == v.deep_view(),
{
    let mut out: Vec<RecordId> = Vec::new();
    let mut i: usize = 0;
    while i < v.len()
        invariant
            i <= v@.len(),
            out@.len() == i,
            forall|k: int| 0 <= k < i ==> (#[trigger] out@[k]).deep_view() == v@[k].deep_view(),
        decreases v@.len() - i,
    {
        out.push(v[i].copy());
        i = i + 1;
    }
    assert(out.deep_view() =~= v.deep_view());
    out
}

fn clone_opt_ids(v: &Option<Vec<RecordId>>) -> (r: Option<Vec<RecordId>>)
    ensures
        r.deep_view() == v.deep_view(),
{
    match v {
        Some(ids) => Some(clone_ids(ids)),
        None => None,
    }
}

fn clone_opt_texts(v: &Option<Vec<String>>) -> (r: Option<Vec<String>>)
    ensures
        r.deep_view() == v.deep_view(),
{
    match v {
        Some(texts) => Some(clone_texts(texts)),
        None => None,
    }
}

/// A copy of an embedding.
pub fn clone_embedding(v: &Vec<u32>) -> (r: Vec<u32>)
    ensures
        r@ == v@,
        r.deep_view() == v.deep_view(),
{
    let mut out: Vec<u32> = Vec::new();
    let mut i: usize = 0;
    while i < v.len()
        invariant
            i <= v@.len(),
            out@ == v@.take(i as int),
        decreases v@.len() - i,
    {
        out.push(v[i]);
        i = i + 1;
    }
    assert(out.deep_view() =~= v.deep_view());
    out
}

/// A copy of an optional embedding.
pub fn clone_opt_embedding(v: &Option<Vec<u32>>) -> (r: Option<Vec<u32>>)
    ensures
        r.deep_view() == v.deep_view(),
{
    match v {
        Some(e) => Some(clone_embedding(e)),
        None => None,
    }
}

// --- Enumerated fields -------------------------------------------------------

/// Whether a preference is for or against something.
#[derive(Debug, Clone, Copy, PartialEq, Eq, Structural)]
pub enum PreferenceDirection {
    Positive,
    Negative,
}

impl DeepView for PreferenceDirection {
    type V = PreferenceDirection;

    open spec fn deep_view(&self) -> PreferenceDirection {
        *self
    }
}

impl PreferenceDirection {
    /// The stored name.
    pub open spec fn name(self) -> Seq<char> {
        match self {
            PreferenceDirection::Positive => "positive"@,
            PreferenceDirection::Negative => "negative"@,
        }
    }

    /// The stored name.
    pub fn as_str(self) -> (r: &'static str)
        ensures
            r@ == self.name(),
    {
        match self {
            PreferenceDirection::Positive => "positive",
            PreferenceDirection::Negative => "negative",
        }
    }

    /// The direction of that stored name.
    pub fn from_name(s: &str) -> (r: Option<PreferenceDirection>)
        ensures
            match r {
                Some(d) => s@ == d.name(),
                None => forall|d: PreferenceDirection| s@ != #[trigger] d.name(),
            },
    {
        if same_text(s, "positive") {
            Some(PreferenceDirection::Positive)
        } else if same_text(s, "negative") {
            Some(PreferenceDirection::Negative)
        } else {
            None
        }
    }

    /// A stored name stands for one direction only.
    pub proof fn names_differ(a: PreferenceDirection, b: PreferenceDirection)
        ensures
            a.name() == b.name() ==> a == b,
    {
        reveal_strlit("positive");
        reveal_strlit("negative");
        assert("positive"@[0] != "negative"@[0]);
    }
}

/// How far a task has come.
#[derive(Debug, Clone, Copy, PartialEq, Eq, Structural)]
pub enum TaskStatus {
    Pending,
    Triggered,
    Completed,
    Cancelled,
}

impl DeepView for TaskStatus {
    type V = TaskStatus;

    open spec fn deep_view(&self) -> TaskStatus {
        *self
    }
}

impl TaskStatus {
    /// The stored name.
    pub open spec fn name(self) -> Seq<char> {
        match self {
            TaskStatus::Pending => "pending"@,
            TaskStatus::Triggered => "triggered"@,
            TaskStatus::Completed => "completed"@,
            TaskStatus::Cancelled => "cancelled"@,
        }
    }

    /// The stored name.
    pub fn as_str(self) -> (r: &'static str)
        ensures
            r@ == self.name(),
    {
        match self {
            TaskStatus::Pending => "pending",
            TaskStatus::Triggered => "triggered",
            TaskStatus::Completed => "completed",
            TaskStatus::Cancelled => "cancelled",
        }
    }

    /// The status of that stored name.
    pub fn from_name(s: &str) -> (r: Option<TaskStatus>)
        ensures
            match r {
                Some(t) => s@ == t.name(),
                None => forall|t: TaskStatus| s@ != #[trigger] t.name(),
            },
    {
        if same_text(s, "pending") {
            Some(TaskStatus::Pending)
        } else if same_text(s, "triggered") {
            Some(TaskStatus::Triggered)
        } else if same_text(s, "completed") {
            Some(TaskStatus::Completed)
        } else if same_text(s, "cancelled") {
            Some(TaskStatus::Cancelled)
        } else {
            None
        }
    }

    /// A stored name stands for one status only.
    pub proof fn names_differ(a: TaskStatus, b: TaskStatus)
        ensures
            a.name() == b.name() ==> a == b,
    {
        reveal_strlit("pending");
        reveal_strlit("triggered");
        reveal_strlit("completed");
        reveal_strlit("cancelled");
        assert("pending"@[0] == 'p' && "triggered"@[0] == 't' && "completed"@[0] == 'c'
            && "cancelled"@[0] == 'c');
        assert("completed"@[1] == 'o' && "cancelled"@[1] == 'a');
    }
}

// --- Records -----------------------------------------------------------------

/// An event that an agent remembers.
#[derive(Debug)]
pub struct Episode {
    pub id: Option<RecordId>,
    pub agent_id: String,
    pub org_id: Option<String>,
    pub user_id: Option<String>,
    pub content: String,
    pub content_type: String,
    /// The embedding, as the bit patterns of single-precision numbers.
    pub embedding: Option<Vec<u32>>,
    pub importance: Weight,
    pub entities: Option<Vec<RecordId>>,
    pub valid_time_start: Timestamp,
    pub valid_time_end: Option<Timestamp>,
    pub transaction_time: Option<Timestamp>,
    pub consolidated: bool,
    pub consolidated_at: Option<Timestamp>,
    pub summary: Option<String>,
    pub source_tier: SignalTier,
    /// The metadata, as a JSON text.
    pub metadata: String,
}

/// What an [`Episode`] holds.
pub struct EpisodeView {
    pub id: Option<RecordIdView>,
    pub agent_id: Seq<char>,
    pub org_id: Option<Seq<char>>,
    pub user_id: Option<Seq<char>>,
    pub content: Seq<char>,
    pub content_type: Seq<char>,
    pub embedding: Option<Seq<u32>>,
    pub importance: Weight,
    pub entities: Option<Seq<RecordIdView>>,
    pub valid_time_start: Timestamp,
    pub valid_time_end: Option<Timestamp>,
    pub transaction_time: Option<Timestamp>,
    pub consolidated: bool,
    pub consolidated_at: Option<Timestamp>,
    pub summary: Option<Seq<char>>,
    pub source_tier: SignalTier,
    pub metadata: Seq<char>,
}

impl DeepView for Episode {
    type V = EpisodeView;

    open spec fn deep_view(&self) -> EpisodeView {
        EpisodeView {
            id: self.id.deep_view(),
            agent_id: self.agent_id.deep_view(),
            org_id: self.org_id.deep_view(),
            user_id: self.user_id.deep_view(),
            content: self.content.deep_view(),
            content_type: self.content_type.deep_view(),
            embedding: self.embedding.deep_view(),
            importance: self.importance,
            entities: self.entities.deep_view(),
            valid_time_start: self.valid_time_start,
            valid_time_end: self.valid_time_end,
            transaction_time: self.transaction_time,
            consolidated: self.consolidated,
            consolidated_at: self.consolidated_at,
            summary: self.summary.deep_view(),
            source_tier: self.source_tier,
            metadata: self.metadata.deep_view(),
        }
    }
}

impl Episode {
    /// A copy of the record.
    pub fn copy(&self) -> (r: Episode)
        ensures
            r.deep_view() == self.deep_view(),
    {
        Episode {
            id: clone_opt_id(&self.id),
            agent_id: self.agent_id.clone(),
            org_id: clone_opt_text(&self.org_id),
            user_id: clone_opt_text(&self.user_id),
            content: self.content.clone(),
            content_type: self.content_type.clone(),
            embedding: clone_opt_embedding(&self.embedding),
            importance: self.importance,
            entities: clone_opt_ids(&self.entities),
            valid_time_start: self.valid_time_start,
            valid_time_end: self.valid_time_end,
            transaction_time: self.transaction_time,
            consolidated: self.consolidated,
            consolidated_at: self.consolidated_at,
            summary: clone_opt_text(&self.summary),
            source_tier: self.source_tier,
            metadata: self.metadata.clone(),
        }
    }
}

/// A person, organization, project, place or other thing that is known by name.
#[derive(Debug)]
pub struct Entity {
    pub id: Option<RecordId>,
    pub agent_id: String,
    pub org_id: Option<String>,
    pub canonical_name: String,
    pub aliases: Vec<String>,
    pub entity_type: String,
    /// The attributes, as a JSON text.
    pub attributes: String,
    /// The embedding, as the bit patterns of single-precision numbers.
    pub embedding: Option<Vec<u32>>,
    pub confidence: Weight,
    pub confidence_tier: SignalTier,
    pub anchor_record: Option<RecordId>,
    pub created_at: Option<Timestamp>,
    pub last_updated: Option<Timestamp>,
    /// The log entries, as JSON texts.
    pub disambiguation_log: Option<Vec<String>>,
}

/// What an [`Entity`] holds.
pub struct EntityView {
    pub id: Option<RecordIdView>,
    pub agent_id: Seq<char>,
    pub org_id: Option<Seq<char>>,
    pub canonical_name: Seq<char>,
    pub aliases: Seq<Seq<char>>,
    pub entity_type: Seq<char>,
    pub attributes: Seq<char>,
    pub embedding: Option<Seq<u32>>,
    pub confidence: Weight,
    pub confidence_tier: SignalTier,
    pub anchor_record: Option<RecordIdView>,
    pub created_at: Option<Timestamp>,
    pub last_updated: Option<Timestamp>,
    pub disambiguation_log: Option<Seq<Seq<char>>>,
}

impl DeepView for Entity {
    type V = EntityView;

    open spec fn deep_view(&self) -> EntityView {
        EntityView {
            id: self.id.deep_view(),
            agent_id: self.agent_id.deep_view(),
            org_id: self.org_id.deep_view(),
            canonical_name: self.canonical_name.deep_view(),
            aliases: self.aliases.deep_view(),
            entity_type: self.entity_type.deep_view(),
            attributes: self.attributes.deep_view(),
            embedding: self.embedding.deep_view(),
            confidence: self.confidence,
            confidence_tier: self.confidence_tier,
            anchor_record: self.anchor_record.deep_view(),
            created_at: self.created_at,
            last_updated: self.last_updated,
            disambiguation_log: self.disambiguation_log.deep_view(),
        }
    }
}

impl Entity {
    /// A copy of the record.
    pub fn copy(&self) -> (r: Entity)
        ensures
            r.deep_view() == self.deep_view(),
    {
        Entity {
            id: clone_opt_id(&self.id),
            agent_id: self.agent_id.clone(),
            org_id: clone_opt_text(&self.org_id),
            canonical_name: self.canonical_name.clone(),
            aliases: clone_texts(&self.aliases),
            entity_type: self.entity_type.clone(),
            attributes: self.attributes.clone(),
            embedding: clone_opt_embedding(&self.embedding),
            confidence: self.confidence,
            confidence_tier: self.confidence_tier,
            anchor_record: clone_opt_id(&self.anchor_record),
            created_at: self.created_at,
            last_updated: self.last_updated,
            disambiguation_log: clone_opt_texts(&self.disambiguation_log),
        }
    }
}

/// A fact that is held to be true.
#[derive(Debug)]
pub struct Concept {
    pub id: Option<RecordId>,
    pub agent_id: String,
    pub org_id: Option<String>,
    pub content: String,
    /// The embedding, as the bit patterns of single-precision numbers.
    pub embedding: Option<Vec<u32>>,
    pub confidence: Weight,
    pub source_tier: SignalTier,
    pub reinforcement_count: u32,
    pub last_reinforced: Option<Timestamp>,
    pub decay_rate: Weight,
    pub inferred: bool,
    pub inference_chain: Option<Vec<String>>,
    pub valid_time_start: Timestamp,
    pub valid_time_end: Option<Timestamp>,
    pub transaction_time: Option<Timestamp>,
}

/// What a [`Concept`] holds.
pub struct ConceptView {
    pub id: Option<RecordIdView>,
    pub agent_id: Seq<char>,
    pub org_id: Option<Seq<char>>,
    pub content: Seq<char>,
    pub embedding: Option<Seq<u32>>,
    pub confidence: Weight,
    pub source_tier: SignalTier,
    pub reinforcement_count: u32,
    pub last_reinforced: Option<Timestamp>,
    pub decay_rate: Weight,
    pub inferred: bool,
    pub inference_chain: Option<Seq<Seq<char>>>,
    pub valid_time_start: Timestamp,
    pub valid_time_end: Option<Timestamp>,
    pub transaction_time: Option<Timestamp>,
}

impl DeepView for Concept {
    type V = ConceptView;

    open spec fn deep_view(&self) -> ConceptView {
        ConceptView {
            id: self.id.deep_view(),
            agent_id: self.agent_id.deep_view(),
            org_id: self.org_id.deep_view(),
            content: self.content.deep_view(),
            embedding: self.embedding.deep_view(),
            confidence: self.confidence,
            source_tier: self.source_tier,
            reinforcement_count: self.reinforcement_count,
            last_reinforced: self.last_reinforced,
            decay_rate: self.decay_rate,
            inferred: self.inferred,
            inference_chain: self.inference_chain.deep_view(),
            valid_time_start: self.valid_time_start,
            valid_time_end: self.valid_time_end,
            transaction_time: self.transaction_time,
        }
    }
}

/// A taste or habit of a user.
#[derive(Debug)]
pub struct Preference {
    pub id: Option<RecordId>,
    pub agent_id: String,
    pub org_id: Option<String>,
    pub user_id: Option<String>,
    pub category: String,
    pub content: String,
    pub direction: PreferenceDirection,
    pub strength: Weight,
    pub source_tier: SignalTier,
    pub evidence_count: u32,
    pub last_reinforced: Option<Timestamp>,
    pub created_at: Option<Timestamp>,
    pub valid_time_start: Timestamp,
    pub valid_time_end: Option<Timestamp>,
    pub transaction_time: Option<Timestamp>,
}

/// What a [`Preference`] holds.
pub struct PreferenceView {
    pub id: Option<RecordIdView>,
    pub agent_id: Seq<char>,
    pub org_id: Option<Seq<char>>,
    pub user_id: Option<Seq<char>>,
    pub category: Seq<char>,
    pub content: Seq<char>,
    pub direction: PreferenceDirection,
    pub strength: Weight,
    pub source_tier: SignalTier,
    pub evidence_count: u32,
    pub last_reinforced: Option<Timestamp>,
    pub created_at: Option<Timestamp>,
    pub valid_time_start: Timestamp,
    pub valid_time_end: Option<Timestamp>,
    pub transaction_time: Option<Timestamp>,
}

impl DeepView for Preference {
    type V = PreferenceView;

    open spec fn deep_view(&self) -> PreferenceView {
        PreferenceView {
            id: self.id.deep_view(),
            agent_id: self.agent_id.deep_view(),
            org_id: self.org_id.deep_view(),
            user_id: self.user_id.deep_view(),
            category: self.category.deep_view(),
            content: self.content.deep_view(),
            direction: self.direction,
            strength: self.strength,
            source_tier: self.source_tier,
            evidence_count: self.evidence_count,
            last_reinforced: self.last_reinforced,
            created_at: self.created_at,
            valid_time_start: self.valid_time_start,
            valid_time_end: self.valid_time_end,
            transaction_time: self.transaction_time,
        }
    }
}

/// A known way of doing something.
#[derive(Debug)]
pub struct Procedure {
    pub id: Option<RecordId>,
    pub agent_id: String,
    pub org_id: Option<String>,
    pub name: String,
    pub procedure_type: String,
    pub content: String,
    /// The embedding, as the bit patterns of single-precision numbers.
    pub embedding: Option<Vec<u32>>,
    pub trigger_patterns: Vec<String>,
    pub usage_count: u32,
    pub last_used: Option<Timestamp>,
    pub created_at: Option<Timestamp>,
}

/// What a [`Procedure`] holds.
pub struct ProcedureView {
    pub id: Option<RecordIdView>,
    pub agent_id: Seq<char>,
    pub org_id: Option<Seq<char>>,
    pub name: Seq<char>,
    pub procedure_type: Seq<char>,
    pub content: Seq<char>,
    pub embedding: Option<Seq<u32>>,
    pub trigger_patterns: Seq<Seq<char>>,
    pub usage_count: u32,
    pub last_used: Option<Timestamp>,
    pub created_at: Option<Timestamp>,
}

impl DeepView for Procedure {
    type V = ProcedureView;

    open spec fn deep_view(&self) -> ProcedureView {
        ProcedureView {
            id: self.id.deep_view(),
            agent_id: self.agent_id.deep_view(),
            org_id: self.org_id.deep_view(),
            name: self.name.deep_view(),
            procedure_type: self.procedure_type.deep_view(),
            content: self.content.deep_view(),
            embedding: self.embedding.deep_view(),
            trigger_patterns: self.trigger_patterns.deep_view(),
            usage_count: self.usage_count,
            last_used: self.last_used,
            created_at: self.created_at,
        }
    }
}

/// Something that is still to be done.
#[derive(Debug)]
pub struct Task {
    pub id: Option<RecordId>,
    pub agent_id: String,
    pub org_id: Option<String>,
    pub user_id: Option<String>,
    pub content: String,
    pub trigger_type: String,
    pub trigger_value: String,
    pub status: TaskStatus,
    pub created_at: Option<Timestamp>,
    pub triggered_at: Option<Timestamp>,
}

/// What a [`Task`] holds.
pub struct TaskView {
    pub id: Option<RecordIdView>,
    pub agent_id: Seq<char>,
    pub org_id: Option<Seq<char>>,
    pub user_id: Option<Seq<char>>,
    pub content: Seq<char>,
    pub trigger_type: Seq<char>,
    pub trigger_value: Seq<char>,
    pub status: TaskStatus,
    pub created_at: Option<Timestamp>,
    pub triggered_at: Option<Timestamp>,
}

impl DeepView for Task {
    type V = TaskView;

    open spec fn deep_view(&self) -> TaskView {
        TaskView {
            id: self.id.deep_view(),
            agent_id: self.agent_id.deep_view(),
            org_id: self.org_id.deep_view(),
            user_id: self.user_id.deep_view(),
            content: self.content.deep_view(),
            trigger_type: self.trigger_type.deep_view(),
            trigger_value: self.trigger_value.deep_view(),
            status: self.status,
            created_at: self.created_at,
            triggered_at: self.triggered_at,
        }
    }
}

/// An edge that a graph walk found.
#[derive(Debug)]
pub struct GraphResult {
    pub from: String,
    pub relation: String,
    pub to: String,
    /// The attributes, as a JSON text.
    pub attributes: String,
}

/// What a [`GraphResult`] holds.
pub struct GraphResultView {
    pub from: Seq<char>,
    pub relation: Seq<char>,
    pub to: Seq<char>,
    pub attributes: Seq<char>,
}

impl DeepView for GraphResult {
    type V = GraphResultView;

    open spec fn deep_view(&self) -> GraphResultView {
        GraphResultView {
            from: self.from.deep_view(),
            relation: self.relation.deep_view(),
            to: self.to.deep_view(),
            attributes: self.attributes.deep_view(),
        }
    }
}

// --- Laws --------------------------------------------------------------------

/// The text of an id is its table, a colon and its key; a key that is a number is
/// written as one.
pub proof fn an_id_is_its_table_and_its_key(id: RecordIdView)
    ensures
        id_text(id) == id.table + ":"@ + (match id.key {
            KeyView::Text(s) => s,
            KeyView::Number(n) => signed_decimal_of(n as int),
            KeyView::Uuid(s) => s,
            KeyView::Composite(s) => s,
        }),
{
}

/// The numbers of the tiers go from one for the strongest to five.
pub proof fn the_tiers_are_numbered(t: SignalTier)
    ensures
        t == SignalTier::Tier1Authoritative ==> t.number_spec() == 1,
        t == SignalTier::Tier2Structured ==> t.number_spec() == 2,
        t == SignalTier::Tier3Conversational ==> t.number_spec() == 3,
        t == SignalTier::Tier4Implied ==> t.number_spec() == 4,
        t == SignalTier::Tier5Behavioral ==> t.number_spec() == 5,
{
}

/// A weight outside of its range is moved to the nearer bound; one inside stays.
pub proof fn a_weight_is_brought_into_range(w: Weight, n: int)
    requires
        0 <= n <= 1_000,
    ensures
        w.millionths < 0 ==> w.clamped_spec().millionths == 0,
        w.millionths > 1_000_000 ==> w.clamped_spec().millionths == 1_000_000,
        0 <= w.millionths <= 1_000_000 ==> w.clamped_spec() == w,
        w.in_unit_range() <==> 0 <= w.millionths <= 1_000_000,
        thousandths_spec(n).millionths == 1_000 * n,
{
}

} // verus!

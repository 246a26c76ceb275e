//! What callers ask of the memory core.
use vstd::prelude::*;
use crate::memory::error::{IngestError, IngestErrorView, IngestResult};
use crate::memory::response::SourceLayer;
use crate::storage::record::{SignalTier, Weight};
use crate::text::{
    blank, decimal, decimal_of, digit, is_blank, same_text, trimmed, trimming_takes_off_white_space,
};
use crate::time::{display_text, timestamp_display, Timestamp};

verus! {

/// The kind of content that is stored.
#[derive(Debug, Clone, Copy, PartialEq, Eq, Hash, Structural)]
pub enum ContentType {
    Conversation,
    Document,
    ToolResult,
    Observation,
    Assertion,
}

impl ContentType {
    /// The stored name.
    pub open spec fn name(self) -> Seq<char> {
        match self {
            ContentType::Conversation => "conversation"@,
            ContentType::Document => "document"@,
            ContentType::ToolResult => "tool_result"@,
            ContentType::Observation => "observation"@,
            ContentType::Assertion => "assertion"@,
        }
    }

    /// The stored name.
    pub fn as_str(self) -> (r: &'static str)
        ensures
            r@ == self.name(),
    {
        match self {
            ContentType::Conversation => "conversation",
            ContentType::Document => "document",
            ContentType::ToolResult => "tool_result",
            ContentType::Observation => "observation",
            ContentType::Assertion => "assertion",
        }
    }

    /// The tier of content of this kind, unless the caller says otherwise.
    pub open spec fn default_tier(self) -> SignalTier {
        match self {
            ContentType::Conversation => SignalTier::Tier3Conversational,
            ContentType::Document => SignalTier::Tier2Structured,
            ContentType::ToolResult => SignalTier::Tier2Structured,
            ContentType::Observation => SignalTier::Tier5Behavioral,
            ContentType::Assertion => SignalTier::Tier1Authoritative,
        }
    }

    /// The tier of content of this kind, unless the caller says otherwise.
    pub fn default_source_tier(self) -> (r: SignalTier)
        ensures
            r == self.default_tier(),
    {
        match self {
            ContentType::Conversation => SignalTier::Tier3Conversational,
            ContentType::Document | ContentType::ToolResult => SignalTier::Tier2Structured,
            ContentType::Observation => SignalTier::Tier5Behavioral,
            ContentType::Assertion => SignalTier::Tier1Authoritative,
        }
    }

    /// The kind of that stored name.
    pub fn from_name(s: &str) -> (r: Result<ContentType, IngestError>)
        ensures
            match r {
                Ok(ct) => s@ == ct.name(),
                Err(e) => {
                    &&& forall|ct: ContentType| s@ != #[trigger] ct.name()
                    &&& e.deep_view() == IngestErrorView::Invalid("unknown content type: "@ + s@)
                },
            },
    {
        if same_text(s, "conversation") {
            Ok(ContentType::Conversation)
        } else if same_text(s, "document") {
            Ok(ContentType::Document)
        } else if same_text(s, "tool_result") {
            Ok(ContentType::ToolResult)
        } else if same_text(s, "observation") {
            Ok(ContentType::Observation)
        } else if same_text(s, "assertion") {
            Ok(ContentType::Assertion)
        } else {
            Err(IngestError::Invalid("unknown content type: ".to_owned().concat(s)))
        }
    }

    /// No two kinds share a stored name: reading back what `as_str` wrote gives
    /// the kind that was written.
    pub proof fn names_differ(a: ContentType, b: ContentType)
        ensures
            a.name() == b.name() ==> a == b,
    {
        reveal_strlit("conversation");
        reveal_strlit("document");
        reveal_strlit("tool_result");
        reveal_strlit("observation");
        reveal_strlit("assertion");
        assert("conversation"@[0] == 'c' && "document"@[0] == 'd' && "tool_result"@[0] == 't'
            && "observation"@[0] == 'o' && "assertion"@[0] == 'a');
    }
}

impl std::str::FromStr for ContentType {
    type Err = IngestError;

    /// The kind of that stored name.
    fn from_str(s: &str) -> (r: Result<Self, IngestError>)
        ensures
            match r {
                Ok(ct) => s@ == ct.name(),
                Err(e) => {
                    &&& forall|ct: ContentType| s@ != #[trigger] ct.name()
                    &&& e.deep_view() == IngestErrorView::Invalid("unknown content type: "@ + s@)
                },
            },
    {
        ContentType::from_name(s)
    }
}

// --- Weights in messages -----------------------------------------------------

/// The decimal digits of `f` in steps of `unit`, without trailing zeros.
pub open spec fn fraction_digits(f: nat, unit: nat) -> Seq<char>
    decreases unit,
{
    if f == 0 || unit == 0 {
        Seq::empty()
    } else {
        seq![digit((f / unit) as int)] + fraction_digits(f % unit, unit / 10)
    }
}

/// The shortest decimal numeral of a weight.
pub open spec fn weight_text(w: Weight) -> Seq<char> {
    let size: nat = if w.millionths < 0 {
        (-w.millionths) as nat
    } else {
        w.millionths as nat
    };
    let sign = if w.millionths < 0 {
        "-"@
    } else {
        Seq::empty()
    };
    let fraction = if size % 1_000_000 == 0 {
        Seq::empty()
    } else {
        "."@ + fraction_digits(size % 1_000_000, 100_000)
    };
    sign + decimal_of(size / 1_000_000) + fraction
}

/// The shortest decimal numeral of a weight.
pub fn format_weight(w: Weight) -> (r: String)
    ensures
        r@ == weight_text(w),
{
    let size: u128 = if w.millionths < 0 {
        (-(w.millionths as i128)) as u128
    } else {
        w.millionths as u128
    };
    let mut out = String::new();
    if w.millionths < 0 {
        out.append("-");
    }
    let ghost sign = out@;
    assert(sign =~= if w.millionths < 0 {
        "-"@
    } else {
        Seq::empty()
    });
    out.append(decimal(size / 1_000_000).as_str());
    let mut f: u128 = size % 1_000_000;
    let ghost head = out@;
    if f != 0 {
        out.append(".");
        let ghost start = f;
        let mut unit: u128 = 100_000;
        let ghost dotted = out@;
        assert(out@ + fraction_digits(f as nat, unit as nat) == head + ("."@ + fraction_digits(
            start as nat,
            100_000,
        )));
        while f != 0 && unit != 0
            invariant
                unit == 100_000 || unit == 10_000 || unit == 1_000 || unit == 100 || unit == 10
                    || unit == 1 || unit == 0,
                f < 10 * unit || (unit == 0 && f == 0),
                out@ + fraction_digits(f as nat, unit as nat) == head + ("."@ + fraction_digits(
                    start as nat,
                    100_000,
                )),
            decreases unit,
        {
            let d: u8 = (f / unit) as u8;
            let ghost before = out@;
            let ghost rest = fraction_digits((f % unit) as nat, (unit / 10) as nat);
            out.push((48u8 + d) as char);
            assert(before + (seq![digit((f / unit) as int)] + rest) =~= before.push(
                digit((f / unit) as int),
            ) + rest);
            f = f % unit;
            unit = unit / 10;
        }
        assert(out@ + fraction_digits(f as nat, unit as nat) =~= out@);
    } else {
        assert(out@ =~= out@ + Seq::<char>::empty());
    }
    out
}

// --- Store requests ----------------------------------------------------------

/// A request to remember something.
#[derive(Debug)]
pub struct StoreRequest {
    /// The agent that owns the memory.
    pub agent_id: String,
    pub org_id: Option<String>,
    pub user_id: Option<String>,
    /// What to remember.
    pub content: String,
    pub content_type: ContentType,
    /// The tier of the content, where it is not that of its kind.
    pub source_tier: Option<SignalTier>,
    /// When the event happened; now, where it is not given.
    pub valid_time: Option<Timestamp>,
    pub valid_time_end: Option<Timestamp>,
    /// The importance, where it is not to be scored.
    pub importance_override: Option<Weight>,
    /// Names of entities that the caller knows to be involved.
    pub preidentified_entities: Vec<String>,
    /// The metadata, as a JSON text.
    pub metadata: String,
}

/// What a [`StoreRequest`] holds.
pub struct StoreView {
    pub agent_id: Seq<char>,
    pub org_id: Option<Seq<char>>,
    pub user_id: Option<Seq<char>>,
    pub content: Seq<char>,
    pub content_type: ContentType,
    pub source_tier: Option<SignalTier>,
    pub valid_time: Option<Timestamp>,
    pub valid_time_end: Option<Timestamp>,
    pub importance_override: Option<Weight>,
    pub preidentified_entities: Seq<Seq<char>>,
    pub metadata: Seq<char>,
}

impl DeepView for StoreRequest {
    type V = StoreView;

    open spec fn deep_view(&self) -> StoreView {
        StoreView {
            agent_id: self.agent_id@,
            org_id: self.org_id.deep_view(),
            user_id: self.user_id.deep_view(),
            content: self.content@,
            content_type: self.content_type,
            source_tier: self.source_tier,
            valid_time: self.valid_time,
            valid_time_end: self.valid_time_end,
            importance_override: self.importance_override,
            preidentified_entities: self.preidentified_entities.deep_view(),
            metadata: self.metadata@,
        }
    }
}

/// Whether an optional timestamp lies in the calendar's range.
pub open spec fn valid_if_set(t: Option<Timestamp>) -> bool {
    match t {
        Some(t) => t.valid(),
        None => true,
    }
}

/// The text about a time range that ends before it starts.
pub open spec fn inverted_range(
    what: Seq<char>,
    end: Timestamp,
    middle: Seq<char>,
    start: Timestamp,
) -> Seq<char> {
    what + display_text(end.seconds, end.nanos) + middle + display_text(start.seconds, start.nanos)
        + ")"@
}

impl StoreRequest {
    /// A request with its required fields: conversation content, at the time of
    /// the request.
    pub fn new(agent_id: &str, content: &str) -> (r: Self)
        ensures
            r.agent_id@ == agent_id@,
            r.org_id is None,
            r.user_id is None,
            r.content@ == content@,
            r.content_type == ContentType::Conversation,
            r.source_tier is None,
            r.valid_time is None,
            r.valid_time_end is None,
            r.importance_override is None,
            r.preidentified_entities@ == Seq::<String>::empty(),
            r.metadata@ == "{}"@,
    {
        StoreRequest {
            agent_id: agent_id.to_owned(),
            org_id: None,
            user_id: None,
            content: content.to_owned(),
            content_type: ContentType::Conversation,
            source_tier: None,
            valid_time: None,
            valid_time_end: None,
            importance_override: None,
            preidentified_entities: Vec::new(),
            metadata: "{}".to_owned(),
        }
    }

    /// The same request for another kind of content.
    pub fn with_content_type(self, ct: ContentType) -> (r: Self)
        ensures
            r == (StoreRequest { content_type: ct, ..self }),
    {
        StoreRequest { content_type: ct, ..self }
    }

    /// The same request within an organization.
    pub fn with_org_id(self, org_id: &str) -> (r: Self)
        ensures
            r.org_id.deep_view() == Some(org_id@),
            r == (StoreRequest { org_id: r.org_id, ..self }),
    {
        StoreRequest { org_id: Some(org_id.to_owned()), ..self }
    }

    /// The same request for a user.
    pub fn with_user_id(self, user_id: &str) -> (r: Self)
        ensures
            r.user_id.deep_view() == Some(user_id@),
            r == (StoreRequest { user_id: r.user_id, ..self }),
    {
        StoreRequest { user_id: Some(user_id.to_owned()), ..self }
    }

    /// The same request with a tier of its own.
    pub fn with_source_tier(self, tier: SignalTier) -> (r: Self)
        ensures
            r == (StoreRequest { source_tier: Some(tier), ..self }),
    {
        StoreRequest { source_tier: Some(tier), ..self }
    }

    /// The same request for an event at `t`.
    pub fn with_valid_time(self, t: Timestamp) -> (r: Self)
        ensures
            r == (StoreRequest { valid_time: Some(t), ..self }),
    {
        StoreRequest { valid_time: Some(t), ..self }
    }

    /// The same request for an event that ended at `t`.
    pub fn with_valid_time_end(self, t: Timestamp) -> (r: Self)
        ensures
            r == (StoreRequest { valid_time_end: Some(t), ..self }),
    {
        StoreRequest { valid_time_end: Some(t), ..self }
    }

    /// The same request with an importance that is not to be scored.
    pub fn with_importance(self, importance: Weight) -> (r: Self)
        ensures
            r == (StoreRequest { importance_override: Some(importance), ..self }),
    {
        StoreRequest { importance_override: Some(importance), ..self }
    }

    /// The same request with one more known entity.
    pub fn with_preidentified_entity(self, name: &str) -> (r: Self)
        ensures
            r.preidentified_entities.deep_view() == self.preidentified_entities.deep_view().push(
                name@,
            ),
            r == (StoreRequest { preidentified_entities: r.preidentified_entities, ..self }),
    {
        let ghost before = self.preidentified_entities.deep_view();
        let mut names = self.preidentified_entities;
        names.push(name.to_owned());
        assert(names.deep_view() =~= before.push(name@));
        StoreRequest { preidentified_entities: names, ..self }
    }

    /// The same request with metadata, as a JSON text.
    pub fn with_metadata(self, metadata: String) -> (r: Self)
        ensures
            r == (StoreRequest { metadata, ..self }),
    {
        StoreRequest { metadata, ..self }
    }

    /// The request's times lie in the calendar's range.
    pub open spec fn times_valid(self) -> bool {
        valid_if_set(self.valid_time) && valid_if_set(self.valid_time_end)
    }

    /// What is wrong with the request, if anything.
    pub open spec fn fault(self) -> Option<IngestErrorView> {
        if blank(self.agent_id@) {
            Some(IngestErrorView::Invalid("agent_id is required"@))
        } else if blank(self.content@) {
            Some(IngestErrorView::Invalid("content is required"@))
        } else if self.valid_time is Some && self.valid_time_end is Some
            && self.valid_time_end->0.instant() < self.valid_time->0.instant() {
            Some(
                IngestErrorView::TimeRange(
                    inverted_range(
                        "valid_time_end ("@,
                        self.valid_time_end->0,
                        ") is before valid_time_start ("@,
                        self.valid_time->0,
                    ),
                ),
            )
        } else if self.importance_override is Some
            && !self.importance_override->0.in_unit_range() {
            Some(
                IngestErrorView::Invalid(
                    "importance_override "@ + weight_text(self.importance_override->0)
                        + " out of [0.0, 1.0]"@,
                ),
            )
        } else {
            None
        }
    }

    /// Accepts the request, or says what is wrong with it.
    pub fn validate(&self) -> (r: IngestResult<()>)
        requires
            self.times_valid(),
        ensures
            match r {
                Ok(_) => self.fault() is None,
                Err(e) => self.fault() == Some(e.deep_view()),
            },
    {
        if is_blank(self.agent_id.as_str()) {
            return Err(IngestError::Invalid("agent_id is required".to_owned()));
        }
        if is_blank(self.content.as_str()) {
            return Err(IngestError::Invalid("content is required".to_owned()));
        }
        if let (Some(start), Some(end)) = (self.valid_time, self.valid_time_end) {
            if end.before(start) {
                return Err(
                    IngestError::TimeRange(
                        "valid_time_end (".to_owned().concat(
                            timestamp_display(end).as_str(),
                        ).concat(") is before valid_time_start (").concat(
                            timestamp_display(start).as_str(),
                        ).concat(")"),
                    ),
                );
            }
        }
        if let Some(importance) = self.importance_override {
            if importance.millionths < 0 || importance.millionths > 1_000_000 {
                return Err(
                    IngestError::Invalid(
                        "importance_override ".to_owned().concat(
                            format_weight(importance).as_str(),
                        ).concat(" out of [0.0, 1.0]"),
                    ),
                );
            }
        }
        Ok(())
    }
}

// --- Recall requests ---------------------------------------------------------

/// A range of valid time: `start` belongs to it, `end` does not.
#[derive(Debug, Clone, Copy, PartialEq, Eq, Structural)]
pub struct TimeRange {
    pub start: Timestamp,
    pub end: Timestamp,
}

/// A record that is valid from `start`, and until `end` where it has ended,
/// lies in the range: it starts in the range and, if it has ended, did so by
/// the end of the range.
pub open spec fn lies_in(
    range: TimeRange,
    start: Timestamp,
    end: Option<Timestamp>,
) -> bool {
    &&& range.start.instant() <= start.instant() < range.end.instant()
    &&& match end {
        Some(e) => e.instant() <= range.end.instant(),
        None => true,
    }
}

impl TimeRange {
    /// Whether a record of that valid time lies in the range.
    pub fn admits(self, start: Timestamp, end: Option<Timestamp>) -> (r: bool)
        ensures
            r == lies_in(self, start, end),
    {
        !start.before(self.start) && start.before(self.end) && match end {
            Some(e) => !self.end.before(e),
            None => true,
        }
    }
}

/// A request to recall what is known.
#[derive(Debug)]
pub struct RecallRequest {
    /// The agent that owns the memory.
    pub agent_id: String,
    pub org_id: Option<String>,
    pub user_id: Option<String>,
    /// The question.
    pub query: String,
    /// The layers to consult; empty to let the classifier choose.
    pub types: Vec<SourceLayer>,
    /// The valid time of episodic and semantic results.
    pub time_range: Option<TimeRange>,
    /// Names of which an episode must mention one; empty for no restriction.
    pub entities: Vec<String>,
    /// How many results to return at most, per layer and in all.
    pub max_results: u32,
}

impl RecallRequest {
    /// A request with its required fields: no filters, ten results.
    pub fn new(agent_id: &str, query: &str) -> (r: Self)
        ensures
            r.agent_id@ == agent_id@,
            r.org_id is None,
            r.user_id is None,
            r.query@ == query@,
            r.types@ == Seq::<SourceLayer>::empty(),
            r.time_range is None,
            r.entities@ == Seq::<String>::empty(),
            r.max_results == 10,
    {
        RecallRequest {
            agent_id: agent_id.to_owned(),
            org_id: None,
            user_id: None,
            query: query.to_owned(),
            types: Vec::new(),
            time_range: None,
            entities: Vec::new(),
            max_results: 10,
        }
    }

    /// The same request within an organization.
    pub fn with_org_id(self, org_id: &str) -> (r: Self)
        ensures
            r.org_id.deep_view() == Some(org_id@),
            r == (RecallRequest { org_id: r.org_id, ..self }),
    {
        RecallRequest { org_id: Some(org_id.to_owned()), ..self }
    }

    /// The same request for a user.
    pub fn with_user_id(self, user_id: &str) -> (r: Self)
        ensures
            r.user_id.deep_view() == Some(user_id@),
            r == (RecallRequest { user_id: r.user_id, ..self }),
    {
        RecallRequest { user_id: Some(user_id.to_owned()), ..self }
    }

    /// The same request for certain layers.
    pub fn with_types(self, types: Vec<SourceLayer>) -> (r: Self)
        ensures
            r == (RecallRequest { types, ..self }),
    {
        RecallRequest { types, ..self }
    }

    /// The same request for a range of valid time.
    pub fn with_time_range(self, start: Timestamp, end: Timestamp) -> (r: Self)
        ensures
            r == (RecallRequest { time_range: Some(TimeRange { start, end }), ..self }),
    {
        RecallRequest { time_range: Some(TimeRange { start, end }), ..self }
    }

    /// The same request for episodes that mention one of these names.
    pub fn with_entities(self, entities: Vec<String>) -> (r: Self)
        ensures
            r == (RecallRequest { entities, ..self }),
    {
        RecallRequest { entities, ..self }
    }

    /// The same request with another cap.
    pub fn with_max_results(self, max_results: u32) -> (r: Self)
        ensures
            r == (RecallRequest { max_results, ..self }),
    {
        RecallRequest { max_results, ..self }
    }

    /// The request's times lie in the calendar's range.
    pub open spec fn times_valid(self) -> bool {
        match self.time_range {
            Some(range) => range.start.valid() && range.end.valid(),
            None => true,
        }
    }

    /// What is wrong with the request, if anything.
    pub open spec fn fault(self) -> Option<IngestErrorView> {
        if blank(self.agent_id@) {
            Some(IngestErrorView::Invalid("agent_id is required"@))
        } else if blank(self.query@) {
            Some(IngestErrorView::Invalid("query is required"@))
        } else if self.time_range is Some && self.time_range->0.end.instant()
            < self.time_range->0.start.instant() {
            Some(
                IngestErrorView::TimeRange(
                    inverted_range(
                        "time_range end ("@,
                        self.time_range->0.end,
                        ") is before start ("@,
                        self.time_range->0.start,
                    ),
                ),
            )
        } else if self.max_results == 0 {
            Some(IngestErrorView::Invalid("max_results must be > 0"@))
        } else {
            None
        }
    }

    /// Accepts the request, or says what is wrong with it.
    pub fn validate(&self) -> (r: IngestResult<()>)
        requires
            self.times_valid(),
        ensures
            match r {
                Ok(_) => self.fault() is None,
                Err(e) => self.fault() == Some(e.deep_view()),
            },
    {
        if is_blank(self.agent_id.as_str()) {
            return Err(IngestError::Invalid("agent_id is required".to_owned()));
        }
        if is_blank(self.query.as_str()) {
            return Err(IngestError::Invalid("query is required".to_owned()));
        }
        if let Some(range) = self.time_range {
            if range.end.before(range.start) {
                return Err(
                    IngestError::TimeRange(
                        "time_range end (".to_owned().concat(
                            timestamp_display(range.end).as_str(),
                        ).concat(") is before start (").concat(
                            timestamp_display(range.start).as_str(),
                        ).concat(")"),
                    ),
                );
            }
        }
        if self.max_results == 0 {
            return Err(IngestError::Invalid("max_results must be > 0".to_owned()));
        }
        Ok(())
    }
}

// --- Laws --------------------------------------------------------------------

impl StoreRequest {
    /// A request is accepted exactly where it names an agent and has content,
    /// neither of them blank, does not end before it starts, and gives an
    /// importance, if any, between nothing and all.
    pub proof fn a_proper_request_is_accepted(self)
        ensures
            self.fault() is None <==> {
                &&& trimmed(self.agent_id@).len() > 0
                &&& trimmed(self.content@).len() > 0
                &&& self.valid_time is Some && self.valid_time_end is Some
                    ==> self.valid_time->0.instant() <= self.valid_time_end->0.instant()
                &&& self.importance_override is Some ==> 0
                    <= self.importance_override->0.millionths <= 1_000_000
            },
            trimmed(self.agent_id@).len() == 0 ==> self.fault() == Some(
                IngestErrorView::Invalid("agent_id is required"@),
            ),
            trimmed(self.agent_id@).len() > 0 && trimmed(self.content@).len() == 0 ==> self.fault()
                == Some(IngestErrorView::Invalid("content is required"@)),
            trimmed(self.agent_id@).len() > 0 && trimmed(self.content@).len() > 0
                && self.valid_time is Some && self.valid_time_end is Some
                && self.valid_time_end->0.instant() < self.valid_time->0.instant() ==> self.fault()
                is Some && self.fault()->0 is TimeRange,
    {
        trimming_takes_off_white_space(self.agent_id@);
        trimming_takes_off_white_space(self.content@);
    }
}

impl RecallRequest {
    /// A question is accepted exactly where it names an agent and asks something,
    /// neither of them blank, over a range that does not end before it starts, and
    /// wants at least one result.
    pub proof fn a_proper_question_is_accepted(self)
        ensures
            self.fault() is None <==> {
                &&& trimmed(self.agent_id@).len() > 0
                &&& trimmed(self.query@).len() > 0
                &&& self.time_range is Some ==> self.time_range->0.start.instant()
                    <= self.time_range->0.end.instant()
                &&& self.max_results > 0
            },
            trimmed(self.agent_id@).len() == 0 ==> self.fault() == Some(
                IngestErrorView::Invalid("agent_id is required"@),
            ),
            trimmed(self.agent_id@).len() > 0 && trimmed(self.query@).len() == 0 ==> self.fault()
                == Some(IngestErrorView::Invalid("query is required"@)),
    {
        trimming_takes_off_white_space(self.agent_id@);
        trimming_takes_off_white_space(self.query@);
    }
}

/// A record lies in a range exactly where it starts in it, before its end, and,
/// if it has ended, has done so by then.
pub proof fn a_range_holds_what_starts_and_ends_in_it(
    range: TimeRange,
    start: Timestamp,
    end: Option<Timestamp>,
)
    ensures
        lies_in(range, start, end) <==> {
            &&& range.start.instant() <= start.instant()
            &&& start.instant() < range.end.instant()
            &&& end is Some ==> end->0.instant() <= range.end.instant()
        },
{
}

impl ContentType {
    /// The tier of each kind of content, and its stored name.
    pub proof fn each_kind_has_its_tier(self)
        ensures
            self == ContentType::Conversation ==> self.default_tier()
                == SignalTier::Tier3Conversational && self.name() == "conversation"@,
            self == ContentType::Document ==> self.default_tier() == SignalTier::Tier2Structured
                && self.name() == "document"@,
            self == ContentType::ToolResult ==> self.default_tier() == SignalTier::Tier2Structured
                && self.name() == "tool_result"@,
            self == ContentType::Observation ==> self.default_tier() == SignalTier::Tier5Behavioral
                && self.name() == "observation"@,
            self == ContentType::Assertion ==> self.default_tier()
                == SignalTier::Tier1Authoritative && self.name() == "assertion"@,
    {
    }
}

/// The digits of a fraction: each is worth a tenth of the one before, and nothing
/// is left over, so that they stand for the whole fraction; the last is no zero.
pub proof fn the_digits_of_a_fraction_add_up(f: nat, unit: nat)
    requires
        unit == 100_000 || unit == 10_000 || unit == 1_000 || unit == 100 || unit == 10 || unit
            == 1 || unit == 0,
        f < 10 * unit || (unit == 0 && f == 0),
    ensures
        f == 0 ==> fraction_digits(f, unit).len() == 0,
        f > 0 ==> {
            let digits = fraction_digits(f, unit);
            &&& digits.len() > 0
            &&& digits[0] == digit((f / unit) as int)
            &&& digits.drop_first() == fraction_digits(f % unit, unit / 10)
            &&& f == (f / unit) * unit + f % unit
            &&& digits.last() != '0'
        },
    decreases unit,
{
    if f > 0 {
        let rest = fraction_digits(f % unit, unit / 10);
        let digits = fraction_digits(f, unit);
        assert(digits.drop_first() =~= rest);
        assert(f % unit < unit);
        assert(f == (f / unit) * unit + f % unit) by (nonlinear_arith)
            requires
                unit > 0,
        ;
        the_digits_of_a_fraction_add_up(f % unit, unit / 10);
        if f % unit == 0 {
            assert(rest.len() == 0);
            assert(f / unit > 0) by (nonlinear_arith)
                requires
                    f > 0,
                    unit > 0,
                    f == (f / unit) * unit + f % unit,
                    f % unit == 0,
            ;
            assert(f / unit < 10) by (nonlinear_arith)
                requires
                    f < 10 * unit,
                    unit > 0,
            ;
        } else {
            assert(digits.last() == rest.last());
        }
    }
}

/// A weight is written as its whole part, and its fraction, if any, behind a full
/// stop; a minus sign stands in front of one below zero.
pub proof fn a_weight_is_written_in_full(w: Weight)
    ensures
        ({
            let size: int = if w.millionths < 0 {
                0 - w.millionths
            } else {
                w.millionths as int
            };
            let sign = if w.millionths < 0 {
                "-"@
            } else {
                Seq::empty()
            };
            &&& size % 1_000_000 == 0 ==> weight_text(w) == sign + decimal_of(
                (size / 1_000_000) as nat,
            )
            &&& size % 1_000_000 != 0 ==> weight_text(w) == sign + decimal_of(
                (size / 1_000_000) as nat,
            ) + ("."@ + fraction_digits((size % 1_000_000) as nat, 100_000))
        }),
{
    let size: int = if w.millionths < 0 {
        0 - w.millionths
    } else {
        w.millionths as int
    };
    let sign = if w.millionths < 0 {
        "-"@
    } else {
        Seq::empty()
    };
    if size % 1_000_000 == 0 {
        assert(weight_text(w) =~= sign + decimal_of((size / 1_000_000) as nat));
    }
}

impl StoreRequest {
    /// What is said of a request that ends before it starts, or whose importance
    /// is out of range.
    pub proof fn a_fault_says_what_is_wrong(self)
        requires
            trimmed(self.agent_id@).len() > 0,
            trimmed(self.content@).len() > 0,
        ensures
            ({
                let inverted = self.valid_time is Some && self.valid_time_end is Some
                    && self.valid_time_end->0.instant() < self.valid_time->0.instant();
                &&& inverted ==> self.fault() == Some(
                    IngestErrorView::TimeRange(
                        "valid_time_end ("@ + display_text(
                            self.valid_time_end->0.seconds,
                            self.valid_time_end->0.nanos,
                        ) + ") is before valid_time_start ("@ + display_text(
                            self.valid_time->0.seconds,
                            self.valid_time->0.nanos,
                        ) + ")"@,
                    ),
                )
                &&& !inverted && self.importance_override is Some && !(0
                    <= self.importance_override->0.millionths <= 1_000_000) ==> self.fault() == Some(
                    IngestErrorView::Invalid(
                        "importance_override "@ + weight_text(self.importance_override->0)
                            + " out of [0.0, 1.0]"@,
                    ),
                )
            }),
    {
        trimming_takes_off_white_space(self.agent_id@);
        trimming_takes_off_white_space(self.content@);
    }
}

impl RecallRequest {
    /// What is said of a question whose range ends before it starts, or that wants
    /// no result.
    pub proof fn a_fault_says_what_is_wrong(self)
        requires
            trimmed(self.agent_id@).len() > 0,
            trimmed(self.query@).len() > 0,
        ensures
            ({
                let inverted = self.time_range is Some && self.time_range->0.end.instant()
                    < self.time_range->0.start.instant();
                &&& inverted ==> self.fault() == Some(
                    IngestErrorView::TimeRange(
                        "time_range end ("@ + display_text(
                            self.time_range->0.end.seconds,
                            self.time_range->0.end.nanos,
                        ) + ") is before start ("@ + display_text(
                            self.time_range->0.start.seconds,
                            self.time_range->0.start.nanos,
                        ) + ")"@,
                    ),
                )
                &&& !inverted && self.max_results == 0 ==> self.fault() == Some(
                    IngestErrorView::Invalid("max_results must be > 0"@),
                )
            }),
    {
        trimming_takes_off_white_space(self.agent_id@);
        trimming_takes_off_white_space(self.query@);
    }
}

} // verus!

//! Scoring how important an episode is.
//!
//! Scores are counted in thousandths: a base by the source's tier, more for
//! explicit mentions and for an explicit priority signal, less for an event that
//! lies back in time, all kept between zero and one thousand.
use vstd::prelude::*;
use crate::memory::error::IngestResult;
use crate::memory::extraction::{ExtractedMention, MentionView, ReferenceKind};
use crate::memory::request::ContentType;
use crate::storage::record::{thousandths_spec, SignalTier, Weight};
use crate::text::{
    any_occurs_in, contains_any, lowercase, lowercase_all, lowercase_each, lowercase_of, occurs_in,
};
use crate::time::{minutes_between, minutes_grow_with_time, Timestamp};

verus! {

/// What a scorer goes by.
#[derive(Debug)]
pub struct ScoringContext<'a> {
    pub agent_id: &'a str,
    pub content: &'a str,
    pub content_type: ContentType,
    pub source_tier: SignalTier,
    /// The mentions that were extracted.
    pub mentions: &'a Vec<ExtractedMention>,
    /// When the event happened.
    pub valid_time: Timestamp,
    /// The length of the content.
    pub content_length: usize,
}

/// The base score of a tier.
pub open spec fn tier_base(tier: SignalTier) -> int {
    match tier {
        SignalTier::Tier1Authoritative => 950,
        SignalTier::Tier2Structured => 750,
        SignalTier::Tier3Conversational => 550,
        SignalTier::Tier4Implied => 400,
        SignalTier::Tier5Behavioral => 300,
    }
}

/// The number of explicit mentions.
pub open spec fn explicit_count(mentions: Seq<MentionView>) -> nat
    decreases mentions.len(),
{
    if mentions.len() == 0 {
        0
    } else {
        explicit_count(mentions.drop_last()) + if mentions.last().reference_kind
            == ReferenceKind::Explicit {
            1nat
        } else {
            0nat
        }
    }
}

/// What explicit mentions add: fifty each, two hundred at most.
pub open spec fn mention_bonus(mentions: Seq<MentionView>) -> int {
    if explicit_count(mentions) >= 4 {
        200
    } else {
        50 * explicit_count(mentions) as int
    }
}

/// What an explicit priority signal adds, given the content in lowercase.
pub open spec fn signal_bonus(phrases: Seq<Seq<char>>, lower: Seq<char>) -> int {
    if any_occurs_in(lower, phrases) {
        150
    } else {
        0
    }
}

/// What an event loses that lies back in time: nothing within an hour, more
/// after a day, a week and a month.
pub open spec fn age_penalty(valid_time: Timestamp, now: Timestamp) -> int {
    let minutes = minutes_between(valid_time, now);
    if minutes < 60 {
        0
    } else if minutes < 24 * 60 {
        25
    } else if minutes < 7 * 24 * 60 {
        75
    } else if minutes < 30 * 24 * 60 {
        120
    } else {
        150
    }
}

/// `n`, kept between zero and one thousand.
pub open spec fn kept_in_range(n: int) -> int {
    if n < 0 {
        0
    } else if n > 1000 {
        1000
    } else {
        n
    }
}

/// The importance in thousandths, given the content in lowercase.
pub open spec fn importance(
    phrases: Seq<Seq<char>>,
    lower: Seq<char>,
    tier: SignalTier,
    mentions: Seq<MentionView>,
    valid_time: Timestamp,
    now: Timestamp,
) -> int {
    kept_in_range(
        tier_base(tier) + mention_bonus(mentions) + signal_bonus(phrases, lower) - age_penalty(
            valid_time,
            now,
        ),
    )
}

/// The scorer that goes by the source's tier first.
#[derive(Debug)]
pub struct TierBasedImportanceScorer {
    priority_phrases: Vec<String>,
}

/// The phrases that signal priority, unless others are given.
pub open spec fn default_phrases() -> Seq<Seq<char>> {
    seq![
        "important"@,
        "remember this"@,
        "deadline"@,
        "urgent"@,
        "critical"@,
        "do not forget"@,
        "must remember"@,
    ]
}

impl TierBasedImportanceScorer {
    /// The phrases that signal priority, in lowercase.
    pub closed spec fn phrases(self) -> Seq<Seq<char>> {
        self.priority_phrases.deep_view()
    }

    /// A scorer with the usual phrases.
    pub fn new() -> (r: Self)
        ensures
            r.phrases() == default_phrases(),
    {
        let priority_phrases = vec![
            "important".to_owned(),
            "remember this".to_owned(),
            "deadline".to_owned(),
            "urgent".to_owned(),
            "critical".to_owned(),
            "do not forget".to_owned(),
            "must remember".to_owned(),
        ];
        assert(priority_phrases.deep_view() =~= default_phrases());
        TierBasedImportanceScorer { priority_phrases }
    }

    /// The same scorer with other phrases, which count in whatever case.
    pub fn with_priority_phrases(self, phrases: Vec<String>) -> (r: Self)
        ensures
            r.phrases() == lowercase_all(phrases.deep_view()),
    {
        TierBasedImportanceScorer { priority_phrases: lowercase_each(&phrases) }
    }

    /// The scorer's name.
    pub fn scorer_id(&self) -> (r: &'static str)
        ensures
            r@ == "tier-based-v1"@,
    {
        "tier-based-v1"
    }

    /// The base score of a tier.
    fn tier_weight(tier: SignalTier) -> (r: i32)
        ensures
            r == tier_base(tier),
            300 <= r <= 950,
    {
        match tier {
            SignalTier::Tier1Authoritative => 950,
            SignalTier::Tier2Structured => 750,
            SignalTier::Tier3Conversational => 550,
            SignalTier::Tier4Implied => 400,
            SignalTier::Tier5Behavioral => 300,
        }
    }

    fn priority_signal_bonus(&self, lower: &str) -> (r: i32)
        ensures
            r == signal_bonus(self.phrases(), lower@),
            0 <= r <= 150,
    {
        if contains_any(lower, &self.priority_phrases) {
            150
        } else {
            0
        }
    }

    fn entity_bonus(mentions: &Vec<ExtractedMention>) -> (r: i32)
        ensures
            r == mention_bonus(mentions.deep_view()),
            0 <= r <= 200,
    {
        let ghost all = mentions.deep_view();
        let mut count: usize = 0;
        let mut i: usize = 0;
        while i < mentions.len()
            invariant
                i <= mentions@.len(),
                all == mentions.deep_view(),
                count <= i,
                count == explicit_count(all.take(i as int)),
            decreases mentions@.len() - i,
        {
            assert(all.take(i + 1).drop_last() == all.take(i as int));
            assert(all.take(i + 1).last() == mentions@[i as int].deep_view());
            if mentions[i].reference_kind == ReferenceKind::Explicit {
                count = count + 1;
            }
            i = i + 1;
        }
        assert(all.take(i as int) == all);
        if count >= 4 {
            200
        } else {
            50 * (count as i32)
        }
    }

    fn recency_penalty(valid_time: Timestamp, now: Timestamp) -> (r: i32)
        ensures
            r == age_penalty(valid_time, now),
            0 <= r <= 150,
    {
        let minutes: i128 = now.minutes_since(valid_time);
        if minutes < 60 {
            0
        } else if minutes < 24 * 60 {
            25
        } else if minutes < 7 * 24 * 60 {
            75
        } else if minutes < 30 * 24 * 60 {
            120
        } else {
            150
        }
    }

    /// The importance of an episode at `now`, given its content in lowercase.
    pub fn score_lowercase(&self, ctx: &ScoringContext, lower: &str, now: Timestamp) -> (r: Weight)
        ensures
            r == thousandths_spec(
                importance(
                    self.phrases(),
                    lower@,
                    ctx.source_tier,
                    ctx.mentions.deep_view(),
                    ctx.valid_time,
                    now,
                ),
            ),
            r.in_unit_range(),
    {
        let base = Self::tier_weight(ctx.source_tier);
        let mentions = Self::entity_bonus(ctx.mentions);
        let priority = self.priority_signal_bonus(lower);
        let age = Self::recency_penalty(ctx.valid_time, now);
        let raw: i32 = base + mentions + priority - age;
        let score: u32 = if raw < 0 {
            0
        } else if raw > 1000 {
            1000
        } else {
            raw as u32
        };
        Weight::thousandths(score)
    }

    /// The importance of an episode at `now`.
    pub fn score(&self, ctx: &ScoringContext, now: Timestamp) -> (r: IngestResult<Weight>)
        ensures
            r matches Ok(w) && w == thousandths_spec(
                importance(
                    self.phrases(),
                    lowercase_of(ctx.content@),
                    ctx.source_tier,
                    ctx.mentions.deep_view(),
                    ctx.valid_time,
                    now,
                ),
            ) && w.in_unit_range(),
    {
        let lower = lowercase(ctx.content);
        Ok(self.score_lowercase(ctx, lower.as_str(), now))
    }
}

impl Default for TierBasedImportanceScorer {
    /// A scorer without any phrases.
    fn default() -> (r: Self)
        ensures
            r.phrases() == Seq::<Seq<char>>::empty(),
    {
        let priority_phrases: Vec<String> = Vec::new();
        assert(priority_phrases.deep_view() =~= Seq::<Seq<char>>::empty());
        TierBasedImportanceScorer { priority_phrases }
    }
}

/// How strongly an episode of a tier is tied to the entities that it mentions.
pub open spec fn mention_strength(tier: SignalTier) -> int {
    match tier {
        SignalTier::Tier1Authoritative => 950,
        SignalTier::Tier2Structured => 850,
        SignalTier::Tier3Conversational => 700,
        SignalTier::Tier4Implied => 500,
        SignalTier::Tier5Behavioral => 300,
    }
}

/// How strongly an episode of a tier is tied to the entities that it mentions.
pub fn mention_weight(tier: SignalTier) -> (r: Weight)
    ensures
        r == thousandths_spec(mention_strength(tier)),
        r.in_unit_range(),
{
    match tier {
        SignalTier::Tier1Authoritative => Weight::thousandths(950),
        SignalTier::Tier2Structured => Weight::thousandths(850),
        SignalTier::Tier3Conversational => Weight::thousandths(700),
        SignalTier::Tier4Implied => Weight::thousandths(500),
        SignalTier::Tier5Behavioral => Weight::thousandths(300),
    }
}

// --- Laws --------------------------------------------------------------------

/// Every importance lies between zero and one, and is never zero: even the
/// weakest evidence keeps some.
pub proof fn importance_is_in_range(
    phrases: Seq<Seq<char>>,
    lower: Seq<char>,
    tier: SignalTier,
    mentions: Seq<MentionView>,
    valid_time: Timestamp,
    now: Timestamp,
)
    ensures
        150 <= importance(phrases, lower, tier, mentions, valid_time, now) <= 1000,
{
}

/// Stronger evidence raises the importance, unless it is at its highest already.
pub proof fn a_stronger_tier_raises_importance(
    phrases: Seq<Seq<char>>,
    lower: Seq<char>,
    strong: SignalTier,
    weak: SignalTier,
    mentions: Seq<MentionView>,
    valid_time: Timestamp,
    now: Timestamp,
)
    requires
        strong.number_spec() < weak.number_spec(),
    ensures
        ({
            let high = importance(phrases, lower, strong, mentions, valid_time, now);
            let low = importance(phrases, lower, weak, mentions, valid_time, now);
            high > low || (high == 1000 && low == 1000)
        }),
        mention_strength(strong) > mention_strength(weak),
{
}

/// A priority signal raises the importance, unless it is at its highest already.
pub proof fn a_priority_signal_raises_importance(
    phrases: Seq<Seq<char>>,
    with_signal: Seq<char>,
    without: Seq<char>,
    tier: SignalTier,
    mentions: Seq<MentionView>,
    valid_time: Timestamp,
    now: Timestamp,
)
    requires
        any_occurs_in(with_signal, phrases),
        !any_occurs_in(without, phrases),
    ensures
        ({
            let high = importance(phrases, with_signal, tier, mentions, valid_time, now);
            let low = importance(phrases, without, tier, mentions, valid_time, now);
            high > low || (high == 1000 && low == 1000)
        }),
{
}

/// More explicit mentions never lower the importance, and up to four of them
/// raise it, unless it is at its highest already.
pub proof fn explicit_mentions_raise_importance(
    phrases: Seq<Seq<char>>,
    lower: Seq<char>,
    tier: SignalTier,
    more: Seq<MentionView>,
    fewer: Seq<MentionView>,
    valid_time: Timestamp,
    now: Timestamp,
)
    requires
        explicit_count(fewer) < explicit_count(more),
    ensures
        ({
            let high = importance(phrases, lower, tier, more, valid_time, now);
            let low = importance(phrases, lower, tier, fewer, valid_time, now);
            &&& high >= low
            &&& explicit_count(fewer) < 4 ==> high > low || (high == 1000 && low == 1000)
        }),
{
}

/// Time never raises the importance.
pub proof fn importance_fades(
    phrases: Seq<Seq<char>>,
    lower: Seq<char>,
    tier: SignalTier,
    mentions: Seq<MentionView>,
    valid_time: Timestamp,
    early: Timestamp,
    late: Timestamp,
)
    requires
        early.instant() <= late.instant(),
    ensures
        importance(phrases, lower, tier, mentions, valid_time, late) <= importance(
            phrases,
            lower,
            tier,
            mentions,
            valid_time,
            early,
        ),
{
    minutes_grow_with_time(valid_time, early, late);
}

/// The number of explicit mentions is that of the mentions that are explicit.
pub proof fn explicit_mentions_are_counted(mentions: Seq<MentionView>)
    ensures
        explicit_count(mentions) == mentions.filter(
            |m: MentionView| m.reference_kind == ReferenceKind::Explicit,
        ).len(),
    decreases mentions.len(),
{
    reveal(Seq::filter);
    if mentions.len() > 0 {
        explicit_mentions_are_counted(mentions.drop_last());
    }
}

/// What an importance is made of: the tier's base; fifty for each explicit
/// mention, two hundred at most; a hundred and fifty where a phrase signals
/// priority; less what the event loses with the hours, days, weeks and months
/// since; all of it kept between nothing and a thousand.
pub proof fn an_importance_adds_up(
    phrases: Seq<Seq<char>>,
    lower: Seq<char>,
    tier: SignalTier,
    mentions: Seq<MentionView>,
    valid_time: Timestamp,
    now: Timestamp,
)
    ensures
        ({
            let base: int = match tier {
                SignalTier::Tier1Authoritative => 950,
                SignalTier::Tier2Structured => 750,
                SignalTier::Tier3Conversational => 550,
                SignalTier::Tier4Implied => 400,
                SignalTier::Tier5Behavioral => 300,
            };
            let explicit = mentions.filter(
                |m: MentionView| m.reference_kind == ReferenceKind::Explicit,
            ).len();
            let mentioned: int = if explicit < 4 {
                50 * explicit as int
            } else {
                200
            };
            let signalled: int = if exists|i: int|
                0 <= i < phrases.len() && occurs_in(lower, #[trigger] phrases[i]) {
                150
            } else {
                0
            };
            let minutes = minutes_between(valid_time, now);
            let lost: int = if minutes < 60 {
                0
            } else if minutes < 1_440 {
                25
            } else if minutes < 10_080 {
                75
            } else if minutes < 43_200 {
                120
            } else {
                150
            };
            let sum = base + mentioned + signalled - lost;
            importance(phrases, lower, tier, mentions, valid_time, now) == if sum > 1000 {
                1000
            } else if sum < 0 {
                0
            } else {
                sum
            }
        }),
{
    explicit_mentions_are_counted(mentions);
}

/// The phrases that signal priority.
pub proof fn these_phrases_signal_priority(phrase: Seq<char>)
    ensures
        default_phrases().contains(phrase) <==> {
            ||| phrase == "important"@
            ||| phrase == "remember this"@
            ||| phrase == "deadline"@
            ||| phrase == "urgent"@
            ||| phrase == "critical"@
            ||| phrase == "do not forget"@
            ||| phrase == "must remember"@
        },
{
    let list = default_phrases();
    assert(list[0] == "important"@);
    assert(list[1] == "remember this"@);
    assert(list[2] == "deadline"@);
    assert(list[3] == "urgent"@);
    assert(list[4] == "critical"@);
    assert(list[5] == "do not forget"@);
    assert(list[6] == "must remember"@);
}

/// How strongly each tier ties an episode to its entities, in thousandths.
pub proof fn a_tier_ties_as_strongly_as_it_is(tier: SignalTier)
    ensures
        tier == SignalTier::Tier1Authoritative ==> mention_strength(tier) == 950,
        tier == SignalTier::Tier2Structured ==> mention_strength(tier) == 850,
        tier == SignalTier::Tier3Conversational ==> mention_strength(tier) == 700,
        tier == SignalTier::Tier4Implied ==> mention_strength(tier) == 500,
        tier == SignalTier::Tier5Behavioral ==> mention_strength(tier) == 300,
{
}

} // verus!

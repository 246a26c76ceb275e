use engram::memory::extraction::{ExtractedMention, ReferenceKind};
use engram::memory::request::ContentType;
use engram::memory::scoring::{mention_weight, ScoringContext, TierBasedImportanceScorer};
use engram::storage::record::{SignalTier, Weight};
use engram::time::Timestamp;

const NOW: Timestamp = Timestamp { seconds: 1_700_000_000, nanos: 5 };

fn ctx<'a>(content: &'a str, mentions: &'a Vec<ExtractedMention>) -> ScoringContext<'a> {
    ScoringContext {
        agent_id: "agent-test",
        content,
        content_type: ContentType::Conversation,
        source_tier: SignalTier::Tier3Conversational,
        mentions,
        valid_time: NOW,
        content_length: content.len(),
    }
}

fn mention(name: &str, ty: &str, kind: ReferenceKind) -> ExtractedMention {
    ExtractedMention {
        surface: name.to_string(),
        canonical_name: name.to_string(),
        entity_type: ty.to_string(),
        source_tier: SignalTier::Tier3Conversational,
        confidence: Weight { millionths: 900_000 },
        reference_kind: kind,
    }
}

fn score(s: &TierBasedImportanceScorer, c: &ScoringContext) -> i64 {
    s.score(c, NOW).unwrap().millionths
}

#[test]
fn scorer_is_in_unit_interval() {
    let s = TierBasedImportanceScorer::new();
    let score = score(&s, &ctx("Hi.", &vec![]));
    assert!((0..=1_000_000).contains(&score));
}

#[test]
fn scorer_rewards_explicit_priority_signal() {
    let s = TierBasedImportanceScorer::new();
    let a = score(&s, &ctx("The cherry blossoms in spring.", &vec![]));
    let b = score(&s, &ctx("URGENT: the cherry blossoms in spring.", &vec![]));
    assert!(b > a, "URGENT: should outscore plain: {b} vs {a}");
}

#[test]
fn scorer_rewards_higher_source_tier() {
    let s = TierBasedImportanceScorer::new();
    let none = vec![];
    let mut c1 = ctx("Sarah Chen is the VP.", &none);
    c1.source_tier = SignalTier::Tier3Conversational;
    let mut c2 = ctx("Sarah Chen is the VP.", &none);
    c2.source_tier = SignalTier::Tier1Authoritative;
    let a = score(&s, &c1);
    let b = score(&s, &c2);
    assert!(b > a, "Tier 1 should outscore Tier 3: {b} vs {a}");
}

#[test]
fn scorer_rewards_explicit_mentions() {
    let s = TierBasedImportanceScorer::new();
    let mentions = vec![
        mention("Sarah Chen", "person", ReferenceKind::Explicit),
        mention("Acme", "organization", ReferenceKind::Explicit),
    ];
    let with_ents = score(&s, &ctx("Sarah and Acme.", &mentions));
    let without = score(&s, &ctx("Sarah and Acme.", &vec![]));
    assert!(with_ents > without);
}

#[test]
fn the_score_adds_up() {
    let s = TierBasedImportanceScorer::new();
    let mut mentions = vec![
        mention("a", "person", ReferenceKind::Explicit),
        mention("b", "other", ReferenceKind::Role),
        mention("c", "other", ReferenceKind::Pronoun),
    ];
    assert_eq!(score(&s, &ctx("plain", &mentions)), 600_000);
    assert_eq!(score(&s, &ctx("a DeadLine", &mentions)), 750_000);
    for n in ["d", "e", "f", "g"] {
        mentions.push(mention(n, "person", ReferenceKind::Explicit));
    }
    assert_eq!(score(&s, &ctx("plain", &mentions)), 750_000);
    let none = vec![];
    for (tier, base) in [
        (SignalTier::Tier1Authoritative, 950_000),
        (SignalTier::Tier2Structured, 750_000),
        (SignalTier::Tier3Conversational, 550_000),
        (SignalTier::Tier4Implied, 400_000),
        (SignalTier::Tier5Behavioral, 300_000),
    ] {
        let mut c = ctx("plain", &none);
        c.source_tier = tier;
        assert_eq!(score(&s, &c), base);
    }
    let mut top = ctx("important", &mentions);
    top.source_tier = SignalTier::Tier1Authoritative;
    assert_eq!(score(&s, &top), 1_000_000);
}

#[test]
fn age_costs_importance() {
    let s = TierBasedImportanceScorer::new();
    let none = vec![];
    let at = |minutes: i64| {
        let mut c = ctx("plain", &none);
        c.valid_time = Timestamp { seconds: NOW.seconds - 60 * minutes, nanos: NOW.nanos };
        score(&s, &c)
    };
    assert_eq!(at(-600), 550_000);
    assert_eq!(at(59), 550_000);
    assert_eq!(at(60), 525_000);
    assert_eq!(at(24 * 60 - 1), 525_000);
    assert_eq!(at(24 * 60), 475_000);
    assert_eq!(at(7 * 24 * 60), 430_000);
    assert_eq!(at(30 * 24 * 60), 400_000);
}

#[test]
fn phrases_count_in_whatever_case() {
    let s = TierBasedImportanceScorer::new().with_priority_phrases(vec!["NOTE well".to_string()]);
    assert_eq!(score(&s, &ctx("Please note WELL", &vec![])), 700_000);
    assert_eq!(score(&s, &ctx("important", &vec![])), 550_000);
    let plain = TierBasedImportanceScorer::default();
    assert_eq!(score(&plain, &ctx("urgent", &vec![])), 550_000);
    assert_eq!(plain.scorer_id(), "tier-based-v1");
}

#[test]
fn the_lowercase_content_decides() {
    let s = TierBasedImportanceScorer::new();
    let none = vec![];
    let c = ctx("ignored", &none);
    assert_eq!(s.score_lowercase(&c, "do not forget", NOW), Weight { millionths: 700_000 });
    assert_eq!(s.score_lowercase(&c, "DO NOT FORGET", NOW), Weight { millionths: 550_000 });
}

#[test]
fn stronger_tiers_tie_entities_closer() {
    let weights: Vec<i64> = [
        SignalTier::Tier1Authoritative,
        SignalTier::Tier2Structured,
        SignalTier::Tier3Conversational,
        SignalTier::Tier4Implied,
        SignalTier::Tier5Behavioral,
    ]
    .iter()
    .map(|t| mention_weight(*t).millionths)
    .collect();
    assert_eq!(weights, vec![950_000, 850_000, 700_000, 500_000, 300_000]);
}

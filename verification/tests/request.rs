use chrono::{DateTime, Duration, Utc};

use engram::memory::request::{format_weight, ContentType, RecallRequest, StoreRequest, TimeRange};
use engram::memory::response::SourceLayer;
use engram::storage::record::{SignalTier, Weight};
use engram::time::{Timestamp, MAX_SECONDS, MIN_SECONDS};

fn ts(t: DateTime<Utc>) -> Timestamp {
    Timestamp { seconds: t.timestamp(), nanos: t.timestamp_subsec_nanos() }
}

fn at(seconds: i64) -> Timestamp {
    Timestamp { seconds, nanos: 0 }
}

#[test]
fn content_type_round_trip() {
    for ct in [
        ContentType::Conversation,
        ContentType::Document,
        ContentType::ToolResult,
        ContentType::Observation,
        ContentType::Assertion,
    ] {
        assert_eq!(ct.as_str().parse::<ContentType>().unwrap(), ct);
    }
}

#[test]
fn content_type_default_tiers() {
    assert_eq!(
        ContentType::Conversation.default_source_tier(),
        SignalTier::Tier3Conversational
    );
    assert_eq!(
        ContentType::Document.default_source_tier(),
        SignalTier::Tier2Structured
    );
    assert_eq!(
        ContentType::ToolResult.default_source_tier(),
        SignalTier::Tier2Structured
    );
    assert_eq!(
        ContentType::Observation.default_source_tier(),
        SignalTier::Tier5Behavioral
    );
    assert_eq!(
        ContentType::Assertion.default_source_tier(),
        SignalTier::Tier1Authoritative
    );
}

#[test]
fn request_validates_minimum() {
    let r = StoreRequest::new("agent-1", "hello");
    r.validate().expect("valid request");
}

#[test]
fn request_rejects_empty_content() {
    let r = StoreRequest::new("agent-1", "  ");
    assert!(r.validate().is_err());
}

#[test]
fn request_rejects_empty_agent() {
    let r = StoreRequest::new("", "hello");
    assert!(r.validate().is_err());
}

#[test]
fn request_rejects_inverted_time_range() {
    let r = StoreRequest::new("agent-1", "hi")
        .with_valid_time(ts(Utc::now()))
        .with_valid_time_end(ts(Utc::now() - Duration::days(1)));
    assert!(r.validate().is_err());
}

#[test]
fn request_rejects_out_of_range_importance() {
    let r = StoreRequest::new("agent-1", "hi").with_importance(Weight { millionths: 1_500_000 });
    assert!(r.validate().is_err());
}

#[test]
fn recall_request_validates_minimum() {
    let r = RecallRequest::new("agent-1", "what happened with Sarah?");
    r.validate().expect("valid request");
}

#[test]
fn recall_request_rejects_empty_agent() {
    let r = RecallRequest::new("", "hello");
    assert!(r.validate().is_err());
}

#[test]
fn recall_request_rejects_empty_query() {
    let r = RecallRequest::new("agent-1", "   ");
    assert!(r.validate().is_err());
}

#[test]
fn recall_request_rejects_zero_max_results() {
    let r = RecallRequest::new("agent-1", "hi").with_max_results(0);
    assert!(r.validate().is_err());
}

#[test]
fn recall_request_rejects_inverted_time_range() {
    let r = RecallRequest::new("agent-1", "hi")
        .with_time_range(ts(Utc::now()), ts(Utc::now() - Duration::days(1)));
    assert!(r.validate().is_err());
}

#[test]
fn unknown_content_types_are_refused() {
    let e = "letter".parse::<ContentType>().unwrap_err();
    assert_eq!(e.message(), "invalid input: unknown content type: letter");
    assert!("Conversation".parse::<ContentType>().is_err());
}

#[test]
fn store_requests_say_what_is_wrong() {
    let message = |r: StoreRequest| r.validate().unwrap_err().message();
    assert_eq!(message(StoreRequest::new(" \t", "x")), "invalid input: agent_id is required");
    assert_eq!(message(StoreRequest::new("a", "\u{3000}")), "invalid input: content is required");
    let range = StoreRequest::new("a", "x").with_valid_time(at(86_400)).with_valid_time_end(at(0));
    assert_eq!(
        message(range),
        "invalid time range: valid_time_end (1970-01-01 00:00:00 UTC) is before valid_time_start (1970-01-02 00:00:00 UTC)"
    );
    let heavy = StoreRequest::new("a", "x").with_importance(Weight { millionths: -250_000 });
    assert_eq!(message(heavy), "invalid input: importance_override -0.25 out of [0.0, 1.0]");
    let same = StoreRequest::new("a", "x").with_valid_time(at(5)).with_valid_time_end(at(5));
    assert!(same.validate().is_ok());
    let edges = StoreRequest::new("a", "x").with_importance(Weight { millionths: 1_000_000 });
    assert!(edges.validate().is_ok());
}

#[test]
fn the_whole_calendar_can_be_written_out() {
    let r = StoreRequest::new("a", "x")
        .with_valid_time(Timestamp { seconds: MAX_SECONDS, nanos: 999_999_999 })
        .with_valid_time_end(at(MIN_SECONDS));
    assert_eq!(
        r.validate().unwrap_err().message(),
        "invalid time range: valid_time_end (-262143-01-01 00:00:00 UTC) is before valid_time_start (+262142-12-31 23:59:59.999999999 UTC)"
    );
}

#[test]
fn store_requests_are_built_up() {
    let r = StoreRequest::new("a", "x")
        .with_content_type(ContentType::Document)
        .with_org_id("o")
        .with_user_id("u")
        .with_source_tier(SignalTier::Tier4Implied)
        .with_preidentified_entity("A")
        .with_preidentified_entity("B")
        .with_metadata("{\"a\":1}".to_string());
    assert_eq!((r.agent_id.as_str(), r.content.as_str()), ("a", "x"));
    assert_eq!(r.content_type, ContentType::Document);
    assert_eq!(r.org_id.as_deref(), Some("o"));
    assert_eq!(r.user_id.as_deref(), Some("u"));
    assert_eq!(r.source_tier, Some(SignalTier::Tier4Implied));
    assert_eq!(r.preidentified_entities, vec!["A", "B"]);
    assert_eq!(r.metadata, "{\"a\":1}");
    assert_eq!(StoreRequest::new("a", "x").metadata, "{}");
}

#[test]
fn recall_requests_say_what_is_wrong() {
    let message = |r: RecallRequest| r.validate().unwrap_err().message();
    assert_eq!(message(RecallRequest::new("", "q")), "invalid input: agent_id is required");
    assert_eq!(message(RecallRequest::new("a", "")), "invalid input: query is required");
    assert_eq!(
        message(RecallRequest::new("a", "q").with_max_results(0)),
        "invalid input: max_results must be > 0"
    );
    let e = message(RecallRequest::new("a", "q").with_time_range(at(60), at(0)));
    assert!(e.starts_with("invalid time range: "), "{e}");
    assert!(e.contains("1970-01-01 00:01:00 UTC"), "{e}");
}

#[test]
fn recall_requests_are_built_up() {
    let r = RecallRequest::new("a", "q")
        .with_org_id("o")
        .with_user_id("u")
        .with_types(vec![SourceLayer::Semantic])
        .with_time_range(at(1), at(2))
        .with_entities(vec!["E".to_string()])
        .with_max_results(7);
    assert_eq!(r.types, vec![SourceLayer::Semantic]);
    assert_eq!(r.entities, vec!["E"]);
    assert_eq!(r.max_results, 7);
    assert_eq!(r.org_id.as_deref(), Some("o"));
    assert_eq!(r.user_id.as_deref(), Some("u"));
    assert_eq!(r.time_range.unwrap().start, at(1));
    assert_eq!(RecallRequest::new("a", "q").max_results, 10);
}

#[test]
fn a_time_range_admits_what_lies_in_it() {
    let r = TimeRange { start: at(10), end: at(20) };
    assert!(r.admits(at(10), None) && r.admits(at(19), Some(at(20))));
    assert!(!r.admits(at(9), None) && !r.admits(at(20), None) && !r.admits(at(12), Some(at(21))));
}

#[test]
fn weights_are_written_as_short_as_possible() {
    for (millionths, text) in [
        (0, "0"),
        (1_500_000, "1.5"),
        (-1, "-0.000001"),
        (2_000_000, "2"),
        (120_030, "0.12003"),
        (i64::MIN, "-9223372036854.775808"),
    ] {
        assert_eq!(format_weight(Weight { millionths }), text);
    }
}

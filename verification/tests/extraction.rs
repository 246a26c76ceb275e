use engram::memory::extraction::{
    capitalise, distinct_mentions, email_to_candidate_name, extract_emails, extract_proper_nouns,
    extract_pronouns, extract_role_references, find_emails, infer_entity_type, infer_type_in,
    is_all_caps_acronym, is_capitalised, is_domain_char, is_local_char, is_pronoun,
    ExtractedMention, HeuristicEntityExtractor, ReferenceKind,
};
use engram::storage::record::{SignalTier, Weight};

const TIER: SignalTier = SignalTier::Tier3Conversational;

fn extract(text: &str) -> Vec<ExtractedMention> {
    HeuristicEntityExtractor.extract(text, TIER).unwrap()
}

fn find<'a>(mentions: &'a [ExtractedMention], name: &str) -> Option<&'a ExtractedMention> {
    mentions.iter().find(|m| m.canonical_name == name)
}

fn names(mentions: &[ExtractedMention]) -> Vec<String> {
    mentions.iter().map(|m| m.canonical_name.clone()).collect()
}

#[test]
fn extracts_proper_noun_person() {
    let mentions = extract("Sarah Chen is the VP of Engineering.");
    assert!(names(&mentions).contains(&"Sarah Chen".to_string()), "got {mentions:?}");
}

#[test]
fn extracts_organization_via_suffix() {
    let mentions = extract("Acme Corp is shipping Atlas.");
    let acme = mentions.iter().find(|m| m.canonical_name.starts_with("Acme"));
    assert!(acme.is_some(), "got {mentions:?}");
    assert_eq!(acme.unwrap().entity_type, "organization");
}

#[test]
fn extracts_known_location() {
    let mentions = extract("I work in Berlin.");
    let berlin = find(&mentions, "Berlin");
    assert!(berlin.is_some(), "got {mentions:?}");
    assert_eq!(berlin.unwrap().entity_type, "location");
}

#[test]
fn extracts_email_as_person() {
    let mentions = extract("Reach me at sarah.chen@acme.com.");
    let m = find(&mentions, "Sarah Chen");
    assert!(m.is_some(), "got {mentions:?}");
    assert_eq!(m.unwrap().entity_type, "person");
}

#[test]
fn extracts_role_reference() {
    let mentions = extract("Talk to my manager first.");
    let m = find(&mentions, "my manager");
    assert!(m.is_some(), "got {mentions:?}");
    assert_eq!(m.unwrap().reference_kind, ReferenceKind::Role);
}

#[test]
fn extracts_pronouns() {
    let mentions = extract("She told me to do it.");
    let she = find(&mentions, "she");
    assert!(she.is_some(), "got {mentions:?}");
    assert_eq!(she.unwrap().reference_kind, ReferenceKind::Pronoun);
}

#[test]
fn drops_sentence_initial_the() {
    let mentions = extract("The Atlas project ships Friday.");
    let atlas = find(&mentions, "Atlas");
    assert!(atlas.is_some(), "got {mentions:?}");
    assert_eq!(atlas.unwrap().entity_type, "project");
}

#[test]
fn the_extractor_has_a_name() {
    assert_eq!(HeuristicEntityExtractor.extractor_id(), "heuristic-v1");
    assert_eq!(ReferenceKind::Explicit.as_str(), "explicit");
    assert_eq!(ReferenceKind::Role.as_str(), "role");
    assert_eq!(ReferenceKind::Pronoun.as_str(), "pronoun");
}

#[test]
fn a_role_is_quoted_as_it_was_written() {
    let found = extract_role_references("Ask My Manager.", TIER);
    assert_eq!(found.len(), 1);
    assert_eq!(found[0].surface, "My Manager");
    assert_eq!(found[0].canonical_name, "my manager");
    assert_eq!(found[0].entity_type, "other");
    assert_eq!(found[0].confidence, Weight { millionths: 600_000 });
    assert_eq!(found[0].source_tier, TIER);
}

#[test]
fn roles_come_in_the_order_of_the_patterns() {
    let text = "the team lead met the project lead";
    let found = extract_role_references(text, TIER);
    assert_eq!(names(&found), vec!["the project", "the project lead", "the team", "the team lead"]);
}

#[test]
fn a_role_is_found_behind_any_character() {
    // The lowercase form of U+0130 is one byte longer than the character.
    let found = extract_role_references("\u{130} my boss", TIER);
    assert_eq!(found.len(), 1);
    assert_eq!(found[0].surface, "my boss");
    assert_eq!(found[0].canonical_name, "my boss");
    assert_eq!(found[0].reference_kind, ReferenceKind::Role);
    assert_eq!(extract_role_references("\u{130}\u{130} é My BOSS", TIER)[0].surface, "My BOSS");
    assert!(extract_role_references("my bóss", TIER).is_empty());
}

#[test]
fn pronouns_are_found_once_each() {
    let found = extract_pronouns("She said it, she knew IT; others", TIER);
    assert_eq!(names(&found), vec!["she", "it"]);
    assert_eq!(found[0].surface, "She");
    assert_eq!(found[1].surface, "it");
    assert_eq!(found[0].confidence, Weight { millionths: 400_000 });
    assert!(extract_pronouns("sheet iterate", TIER).is_empty());
}

#[test]
fn names_end_at_sentences_and_after_four_words() {
    let found = extract_proper_nouns("Berlin. Acme Corp met One Two Three Four Five", TIER);
    assert_eq!(names(&found), vec!["Berlin", "Acme Corp", "One Two Three Four", "Five"]);
    assert_eq!(found[0].surface, "Berlin");
    assert_eq!(found[1].entity_type, "organization");
    assert_eq!(found[0].confidence, Weight { millionths: 800_000 });
}

#[test]
fn articles_are_no_part_of_a_name() {
    let found = extract_proper_nouns("The Every Atlas flew. The end", TIER);
    assert_eq!(names(&found), vec!["Atlas"]);
    assert_eq!(found[0].surface, "Atlas");
}

#[test]
fn pronouns_and_acronyms_end_a_name() {
    let found = extract_proper_nouns("Sarah She Chen VP Acme O'Neil", TIER);
    assert_eq!(names(&found), vec!["Sarah", "Chen", "Acme O'Neil"]);
}

#[test]
fn a_name_is_quoted_as_it_stands() {
    let found = extract_proper_nouns("Sarah  Chen left", TIER);
    assert_eq!(found[0].canonical_name, "Sarah Chen");
    assert_eq!(found[0].surface, "Sarah  Chen");
    let found = extract_proper_nouns("Re: Atlas timeline", SignalTier::Tier2Structured);
    assert_eq!(found.len(), 1);
    assert_eq!(found[0].surface, "Re: Atlas");
    assert_eq!(found[0].canonical_name, "Re Atlas");
    assert_eq!(found[0].entity_type, "person");
    assert_eq!(extract_proper_nouns("é Sarah   Cheé", TIER)[0].surface, "Sarah   Cheé");
}

#[test]
fn the_type_of_a_name_goes_by_its_words_first() {
    let words = |ws: &[&str]| ws.iter().map(|w| w.to_string()).collect::<Vec<String>>();
    assert_eq!(infer_entity_type("acme gmbh", &words(&["Acme", "GmbH"]), "our project"), "organization");
    assert_eq!(infer_entity_type("berlin", &words(&["Berlin"]), "The Project in Berlin"), "project");
    assert_eq!(infer_type_in("new york", &words(&["New", "York"]), "in new york"), "location");
    assert_eq!(infer_type_in("sarah", &words(&["Sarah"]), "sarah"), "person");
    assert_eq!(infer_type_in("acme co'", &words(&["Acme", "Co'"]), ""), "organization");
    assert_eq!(infer_type_in("x", &words(&["X"]), "the initiative"), "project");
    assert_eq!(infer_type_in("x", &words(&["X"]), "a programme"), "project");
}

#[test]
fn words_are_classified() {
    assert!(is_pronoun("She") && !is_pronoun("Sheila"));
    assert!(is_capitalised("Éclair") && !is_capitalised("eclair") && !is_capitalised(""));
    assert!(is_all_caps_acronym("VP") && is_all_caps_acronym("Q3") && is_all_caps_acronym("42"));
    assert!(!is_all_caps_acronym("ABCDEF") && !is_all_caps_acronym("Vp"));
    assert!(is_local_char('+') && is_local_char('_') && !is_local_char('@') && !is_local_char('é'));
    assert!(is_domain_char('-') && !is_domain_char('_') && !is_domain_char('+'));
}

#[test]
fn emails_are_found_where_they_stand() {
    let text = "é a.b@c.d, x@, @y and z@w@v.u";
    let found = find_emails(text);
    let quoted: Vec<(String, String)> =
        found.iter().map(|e| (e.local.clone(), e.domain.clone())).collect();
    assert_eq!(
        quoted,
        vec![
            ("a.b".to_string(), "c.d".to_string()),
            ("z".to_string(), "w".to_string()),
            ("w".to_string(), "v.u".to_string()),
        ]
    );
    assert_eq!((found[0].start, found[0].end), (3, 10));
    assert_eq!(&text[found[2].start..found[2].end], "w@v.u");
    let mentions = extract_emails(text, TIER);
    assert_eq!(mentions[0].surface, "a.b@c.d");
    assert_eq!(mentions[0].canonical_name, "A B");
    assert_eq!(mentions[0].confidence, Weight { millionths: 700_000 });
}

#[test]
fn local_parts_become_names() {
    assert_eq!(email_to_candidate_name("sarah.chen"), "Sarah Chen");
    assert_eq!(email_to_candidate_name("_ada--LOVE_lace."), "Ada LOVE Lace");
    assert_eq!(email_to_candidate_name("..."), "");
    assert_eq!(capitalise("élan"), "Élan");
    assert_eq!(capitalise("ßa"), "SSa");
    assert_eq!(capitalise(""), "");
}

#[test]
fn a_mention_comes_once() {
    let mentions = extract("Sarah Chen met SARAH.CHEN@acme.com and Sarah Chen.");
    let people: Vec<&ExtractedMention> =
        mentions.iter().filter(|m| m.canonical_name.to_lowercase() == "sarah chen").collect();
    assert_eq!(people.len(), 1);
    assert_eq!(people[0].surface, "Sarah Chen");
}

#[test]
fn mentions_differ_by_type_and_kind() {
    let mention = |name: &str, ty: &str, kind: ReferenceKind| ExtractedMention {
        surface: name.to_string(),
        canonical_name: name.to_string(),
        entity_type: ty.to_string(),
        source_tier: TIER,
        confidence: Weight { millionths: 1 },
        reference_kind: kind,
    };
    let kept = distinct_mentions(vec![
        mention("Atlas", "person", ReferenceKind::Explicit),
        mention("ATLAS", "person", ReferenceKind::Explicit),
        mention("Atlas", "project", ReferenceKind::Explicit),
        mention("Atlas", "person", ReferenceKind::Role),
    ]);
    assert_eq!(kept.len(), 3);
    assert_eq!(kept[0].surface, "Atlas");
}

#[test]
fn the_rules_are_applied_in_order() {
    let mentions = extract("She met my boss Sarah Chen (sarah@acme.com).");
    assert_eq!(names(&mentions), vec!["my boss", "she", "Sarah Chen", "Sarah"]);
    assert!(mentions.iter().all(|m| m.source_tier == TIER));
}

#[test]
fn every_surface_is_part_of_the_text() {
    let text = "\u{130} SHE met The  Team; My Boss (É: Ärger x.y@z) and THE Atlas!";
    let mentions = extract(text);
    assert!(mentions.len() >= 5, "got {mentions:?}");
    assert!(mentions.iter().all(|m| text.contains(&m.surface)), "got {mentions:?}");
    assert_eq!(names(&extract("Plain words only.")), vec!["Plain"]);
}

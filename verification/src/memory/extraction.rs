//! Extracting mentions of entities from a text by rules.
//!
//! The extractor finds references by role, pronouns, capitalised names and
//! email addresses, and quotes each as it stands in the text.
use vstd::prelude::*;
use vstd::utf8::{char_is_scalar, encode_scalar, encode_utf8};
use crate::memory::error::IngestResult;
use crate::storage::record::{thousandths_spec, SignalTier, Weight};
use crate::text::{
    alphabetic, alphanumeric, any_occurs_in, chars_of, contains_text, find_chars, is_alphabetic,
    is_alphanumeric, is_uppercase, join, joined, lowercase, lowercase_of, occurs_at,
    occurs_first_at, occurs_in, same_text, text_of, uppercase, uppercase_char, uppercase_of,
};
use crate::words::{find_runs, is_run, runs, runs_are_the_maximal_stretches, span_view, WordClass};

verus! {

/// What kind of reference a mention is.
#[derive(Debug, Clone, Copy, PartialEq, Eq, Structural)]
pub enum ReferenceKind {
    /// A name.
    Explicit,
    /// A role, such as "my manager".
    Role,
    /// A pronoun.
    Pronoun,
}

impl ReferenceKind {
    /// The name of the kind.
    pub open spec fn name(self) -> Seq<char> {
        match self {
            ReferenceKind::Explicit => "explicit"@,
            ReferenceKind::Role => "role"@,
            ReferenceKind::Pronoun => "pronoun"@,
        }
    }

    /// The name of the kind.
    pub fn as_str(self) -> (r: &'static str)
        ensures
            r@ == self.name(),
    {
        match self {
            ReferenceKind::Explicit => "explicit",
            ReferenceKind::Role => "role",
            ReferenceKind::Pronoun => "pronoun",
        }
    }
}

/// A mention of an entity.
#[derive(Debug)]
pub struct ExtractedMention {
    /// The text as it was written.
    pub surface: String,
    /// The name that the entity goes by.
    pub canonical_name: String,
    /// What the entity is: a person, an organization, a project, a location or
    /// other.
    pub entity_type: String,
    pub source_tier: SignalTier,
    pub confidence: Weight,
    pub reference_kind: ReferenceKind,
}

/// What an [`ExtractedMention`] holds.
pub struct MentionView {
    pub surface: Seq<char>,
    pub canonical_name: Seq<char>,
    pub entity_type: Seq<char>,
    pub source_tier: SignalTier,
    pub confidence: Weight,
    pub reference_kind: ReferenceKind,
}

impl DeepView for ExtractedMention {
    type V = MentionView;

    open spec fn deep_view(&self) -> MentionView {
        MentionView {
            surface: self.surface@,
            canonical_name: self.canonical_name@,
            entity_type: self.entity_type@,
            source_tier: self.source_tier,
            confidence: self.confidence,
            reference_kind: self.reference_kind,
        }
    }
}

impl ExtractedMention {
    /// A copy of the mention.
    pub fn copy(&self) -> (r: ExtractedMention)
        ensures
            r.deep_view() == self.deep_view(),
    {
        ExtractedMention {
            surface: self.surface.clone(),
            canonical_name: self.canonical_name.clone(),
            entity_type: self.entity_type.clone(),
            source_tier: self.source_tier,
            confidence: self.confidence,
            reference_kind: self.reference_kind,
        }
    }
}

// --- Word lists --------------------------------------------------------------

/// Roles that a text may refer to somebody or something by.
pub open spec fn role_patterns() -> Seq<Seq<char>> {
    seq![
        "my manager"@,
        "my boss"@,
        "my supervisor"@,
        "the project"@,
        "the project lead"@,
        "the lead"@,
        "the company"@,
        "the client"@,
        "the customer"@,
        "the team"@,
        "the team lead"@,
    ]
}

/// The pronouns.
pub open spec fn pronouns() -> Seq<Seq<char>> {
    seq![
        "she"@,
        "her"@,
        "hers"@,
        "he"@,
        "him"@,
        "his"@,
        "they"@,
        "them"@,
        "their"@,
        "it"@,
        "its"@,
    ]
}

/// Words that end the name of an organization.
pub open spec fn organization_suffixes() -> Seq<Seq<char>> {
    seq![
        "inc"@,
        "corp"@,
        "ltd"@,
        "llc"@,
        "gmbh"@,
        "ag"@,
        "sas"@,
        "plc"@,
        "co"@,
    ]
}

/// Words that make a name the name of a project.
pub open spec fn project_keywords() -> Seq<Seq<char>> {
    seq![
        "project"@,
        "initiative"@,
        "program"@,
        "programme"@,
    ]
}

/// Words at the start of a name that do not belong to it.
pub open spec fn articles() -> Seq<Seq<char>> {
    seq![
        "the"@,
        "a"@,
        "an"@,
        "this"@,
        "that"@,
        "these"@,
        "those"@,
        "all"@,
        "every"@,
        "some"@,
    ]
}

/// The locations that are known by name.
pub open spec fn known_locations() -> Seq<Seq<char>> {
    seq![
        "berlin"@,
        "paris"@,
        "london"@,
        "tokyo"@,
        "new york"@,
        "san francisco"@,
        "boston"@,
        "seattle"@,
        "austin"@,
        "toronto"@,
        "sydney"@,
        "singapore"@,
        "amsterdam"@,
        "munich"@,
        "zurich"@,
        "geneva"@,
        "dublin"@,
        "tel aviv"@,
        "bangalore"@,
        "mumbai"@,
        "delhi"@,
        "shanghai"@,
        "beijing"@,
        "hong kong"@,
        "seoul"@,
        "osaka"@,
        "kyoto"@,
        "vancouver"@,
        "montreal"@,
        "mexico city"@,
        "madrid"@,
        "barcelona"@,
        "rome"@,
        "milan"@,
        "lisbon"@,
        "vienna"@,
        "prague"@,
        "warsaw"@,
        "budapest"@,
        "athens"@,
        "helsinki"@,
        "oslo"@,
        "stockholm"@,
        "copenhagen"@,
        "reykjavik"@,
        "manchester"@,
        "edinburgh"@,
        "glasgow"@,
        "birmingham"@,
        "hamburg"@,
        "frankfurt"@,
        "cologne"@,
        "stuttgart"@,
        "beijing"@,
        "tianjin"@,
        "guangzhou"@,
        "shenzhen"@,
        "chengdu"@,
        "hangzhou"@,
    ]
}

/// The texts of some string slices.
pub open spec fn texts_of(list: Seq<&str>) -> Seq<Seq<char>> {
    list.map_values(|s: &str| s@)
}

fn is_listed(s: &str, list: &[&str]) -> (r: bool)
    ensures
        r == texts_of(list@).contains(s@),
{
    let mut i: usize = 0;
    while i < list.len()
        invariant
            i <= list@.len(),
            forall|k: int| 0 <= k < i ==> texts_of(list@)[k] != s@,
        decreases list@.len() - i,
    {
        if same_text(list[i], s) {
            assert(texts_of(list@)[i as int] == s@);
            return true;
        }
        i = i + 1;
    }
    false
}

/// Whether a lowercase word is a pronoun.
pub fn is_pronoun_word(s: &str) -> (r: bool)
    ensures
        r == pronouns().contains(s@),
{
    let list = [
        "she",
        "her",
        "hers",
        "he",
        "him",
        "his",
        "they",
        "them",
        "their",
        "it",
        "its",
    ];
    assert(texts_of(list@) =~= pronouns());
    is_listed(s, &list)
}

/// Whether a lowercase word ends the name of an organization.
pub fn is_organization_suffix(s: &str) -> (r: bool)
    ensures
        r == organization_suffixes().contains(s@),
{
    let list = [
        "inc",
        "corp",
        "ltd",
        "llc",
        "gmbh",
        "ag",
        "sas",
        "plc",
        "co",
    ];
    assert(texts_of(list@) =~= organization_suffixes());
    is_listed(s, &list)
}

/// Whether a lowercase word does not belong to a name that it starts.
pub fn is_article(s: &str) -> (r: bool)
    ensures
        r == articles().contains(s@),
{
    let list = [
        "the",
        "a",
        "an",
        "this",
        "that",
        "these",
        "those",
        "all",
        "every",
        "some",
    ];
    assert(texts_of(list@) =~= articles());
    is_listed(s, &list)
}

/// Whether a lowercase name is a known location.
pub fn is_known_location(s: &str) -> (r: bool)
    ensures
        r == known_locations().contains(s@),
{
    let list = [
        "berlin",
        "paris",
        "london",
        "tokyo",
        "new york",
        "san francisco",
        "boston",
        "seattle",
        "austin",
        "toronto",
        "sydney",
        "singapore",
        "amsterdam",
        "munich",
        "zurich",
        "geneva",
        "dublin",
        "tel aviv",
        "bangalore",
        "mumbai",
        "delhi",
        "shanghai",
        "beijing",
        "hong kong",
        "seoul",
        "osaka",
        "kyoto",
        "vancouver",
        "montreal",
        "mexico city",
        "madrid",
        "barcelona",
        "rome",
        "milan",
        "lisbon",
        "vienna",
        "prague",
        "warsaw",
        "budapest",
        "athens",
        "helsinki",
        "oslo",
        "stockholm",
        "copenhagen",
        "reykjavik",
        "manchester",
        "edinburgh",
        "glasgow",
        "birmingham",
        "hamburg",
        "frankfurt",
        "cologne",
        "stuttgart",
        "beijing",
        "tianjin",
        "guangzhou",
        "shenzhen",
        "chengdu",
        "hangzhou",
    ];
    assert(texts_of(list@) =~= known_locations());
    is_listed(s, &list)
}

/// Whether a word that makes a name the name of a project occurs in a lowercase
/// text.
pub fn mentions_project(lower: &str) -> (r: bool)
    ensures
        r == any_occurs_in(lower@, project_keywords()),
{
    let a = contains_text(lower, "project");
    let b = contains_text(lower, "initiative");
    let c = contains_text(lower, "program");
    let d = contains_text(lower, "programme");
    proof {
        let words = project_keywords();
        assert(words[0] == "project"@ && words[1] == "initiative"@ && words[2] == "program"@
            && words[3] == "programme"@);
        if a {
            assert(occurs_in(lower@, words[0]));
        }
        if b {
            assert(occurs_in(lower@, words[1]));
        }
        if c {
            assert(occurs_in(lower@, words[2]));
        }
        if d {
            assert(occurs_in(lower@, words[3]));
        }
    }
    a || b || c || d
}

// --- Quotes ------------------------------------------------------------------

/// A letter of ASCII in lowercase; any other character as it is.
pub open spec fn ascii_lower(c: char) -> char {
    if 'A' <= c && c <= 'Z' {
        (c as u32 + 32) as char
    } else {
        c
    }
}

/// A text with its letters of ASCII in lowercase. Every character stays in its
/// place.
pub open spec fn folded(s: Seq<char>) -> Seq<char> {
    s.map_values(|c: char| ascii_lower(c))
}

fn lower_ascii(c: char) -> (r: char)
    ensures
        r == ascii_lower(c),
{
    if 'A' <= c && c <= 'Z' {
        (c as u8 + 32) as char
    } else {
        c
    }
}

fn fold_chars(chars: &Vec<char>) -> (r: Vec<char>)
    ensures
        r@ == folded(chars@),
{
    let mut out: Vec<char> = Vec::new();
    let mut i: usize = 0;
    while i < chars.len()
        invariant
            i <= chars@.len(),
            out@ == folded(chars@).take(i as int),
        decreases chars@.len() - i,
    {
        out.push(lower_ascii(chars[i]));
        assert(out@ =~= folded(chars@).take(i + 1));
        i = i + 1;
    }
    assert(out@ =~= folded(chars@));
    out
}

// --- Roles -------------------------------------------------------------------

/// The first position of `needle` in `hay`, where it occurs.
pub open spec fn first_place(hay: Seq<char>, needle: Seq<char>) -> int {
    choose|i: int| occurs_first_at(hay, needle, i)
}

/// What is quoted for a role that occurs in a text, in whatever case: the text
/// at its first place.
pub open spec fn role_surface(text: Seq<char>, role: Seq<char>) -> Seq<char> {
    let i = first_place(folded(text), role);
    text.subrange(i, i + role.len())
}

/// The mention of a role.
pub open spec fn role_mention(surface: Seq<char>, role: Seq<char>, tier: SignalTier) -> MentionView {
    MentionView {
        surface,
        canonical_name: role,
        entity_type: "other"@,
        source_tier: tier,
        confidence: thousandths_spec(600),
        reference_kind: ReferenceKind::Role,
    }
}

/// The mentions of the first `n` roles in a text, in whatever case.
pub open spec fn role_mentions(text: Seq<char>, tier: SignalTier, n: int) -> Seq<MentionView>
    decreases n,
{
    if n <= 0 {
        Seq::empty()
    } else {
        let role = role_patterns()[n - 1];
        let front = role_mentions(text, tier, n - 1);
        if occurs_in(folded(text), role) {
            front.push(role_mention(role_surface(text, role), role, tier))
        } else {
            front
        }
    }
}

proof fn lemma_first_place(hay: Seq<char>, needle: Seq<char>, i: int)
    requires
        occurs_first_at(hay, needle, i),
    ensures
        first_place(hay, needle) == i,
{
    let j = first_place(hay, needle);
    assert(occurs_first_at(hay, needle, j));
    if j < i {
        assert(!occurs_at(hay, needle, j));
    }
    if i < j {
        assert(!occurs_at(hay, needle, i));
    }
}

/// The mentions of roles in a text.
pub fn extract_role_references(text: &str, tier: SignalTier) -> (r: Vec<ExtractedMention>)
    ensures
        r.deep_view() == role_mentions(text@, tier, role_patterns().len() as int),
{
    let list = [
        "my manager",
        "my boss",
        "my supervisor",
        "the project",
        "the project lead",
        "the lead",
        "the company",
        "the client",
        "the customer",
        "the team",
        "the team lead",
    ];
    assert(texts_of(list@) =~= role_patterns());
    let chars = chars_of(text);
    let lower = fold_chars(&chars);
    let mut out: Vec<ExtractedMention> = Vec::new();
    let mut n: usize = 0;
    assert(out.deep_view() =~= Seq::<MentionView>::empty());
    while n < list.len()
        invariant
            n <= list@.len() == role_patterns().len(),
            chars@ == text@,
            lower@ == folded(text@),
            texts_of(list@) == role_patterns(),
            out.deep_view() == role_mentions(text@, tier, n as int),
        decreases list@.len() - n,
    {
        let role = list[n];
        assert(role_patterns()[n as int] == role@) by {
            assert(texts_of(list@)[n as int] == role@);
        }
        let pattern = chars_of(role);
        if let Some(at) = find_chars(&lower, &pattern) {
            proof {
                lemma_first_place(lower@, role@, at as int);
                assert(occurs_in(lower@, role@));
                assert(at + pattern@.len() <= lower@.len() == chars@.len());
            }
            assert(lower.len() <= usize::MAX);
            let end: usize = at + pattern.len();
            let mention = ExtractedMention {
                surface: text_of(&chars, at, end),
                canonical_name: role.to_owned(),
                entity_type: "other".to_owned(),
                source_tier: tier,
                confidence: Weight::thousandths(600),
                reference_kind: ReferenceKind::Role,
            };
            let ghost before = out.deep_view();
            let ghost m = mention.deep_view();
            out.push(mention);
            assert(out.deep_view() =~= before.push(m));
        }
        n = n + 1;
    }
    out
}

// --- Pronouns ----------------------------------------------------------------

/// The mention of a pronoun that is written as `surface`.
pub open spec fn pronoun_mention(surface: Seq<char>, tier: SignalTier) -> MentionView {
    MentionView {
        surface,
        canonical_name: folded(surface),
        entity_type: "other"@,
        source_tier: tier,
        confidence: thousandths_spec(400),
        reference_kind: ReferenceKind::Pronoun,
    }
}

/// One of the mentions has that name.
pub open spec fn has_canonical_name(mentions: Seq<MentionView>, name: Seq<char>) -> bool {
    exists|i: int| 0 <= i < mentions.len() && (#[trigger] mentions[i]).canonical_name == name
}

/// The mentions of the pronouns among the words of a text, in whatever case,
/// each at its first place.
pub open spec fn pronoun_mentions(
    text: Seq<char>,
    spans: Seq<(int, int)>,
    tier: SignalTier,
) -> Seq<MentionView>
    decreases spans.len(),
{
    if spans.len() == 0 {
        Seq::empty()
    } else {
        let front = pronoun_mentions(text, spans.drop_last(), tier);
        let word = text.subrange(spans.last().0, spans.last().1);
        if pronouns().contains(folded(word)) && !has_canonical_name(front, folded(word)) {
            front.push(pronoun_mention(word, tier))
        } else {
            front
        }
    }
}

fn is_named(mentions: &Vec<ExtractedMention>, name: &str) -> (r: bool)
    ensures
        r == has_canonical_name(mentions.deep_view(), name@),
{
    let mut i: usize = 0;
    while i < mentions.len()
        invariant
            i <= mentions@.len(),
            forall|k: int|
                0 <= k < i ==> (#[trigger] mentions.deep_view()[k]).canonical_name != name@,
        decreases mentions@.len() - i,
    {
        assert(mentions.deep_view()[i as int] == mentions@[i as int].deep_view());
        if same_text(mentions[i].canonical_name.as_str(), name) {
            return true;
        }
        i = i + 1;
    }
    false
}

/// The mentions of pronouns in a text.
pub fn extract_pronouns(text: &str, tier: SignalTier) -> (r: Vec<ExtractedMention>)
    ensures
        r.deep_view() == pronoun_mentions(text@, runs(text@, WordClass::Alphanumeric), tier),
{
    let chars = chars_of(text);
    let lower = fold_chars(&chars);
    let spans = find_runs(&chars, WordClass::Alphanumeric);
    let ghost spans_v = spans@.map_values(|p: (usize, usize)| span_view(p));
    let mut out: Vec<ExtractedMention> = Vec::new();
    let mut i: usize = 0;
    assert(out.deep_view() =~= pronoun_mentions(text@, spans_v.take(0), tier));
    while i < spans.len()
        invariant
            i <= spans@.len(),
            chars@ == text@,
            lower@ == folded(text@),
            spans_v == spans@.map_values(|p: (usize, usize)| span_view(p)),
            forall|m: int|
                0 <= m < spans@.len() ==> (#[trigger] spans@[m]).0 < spans@[m].1 <= chars@.len(),
            out.deep_view() == pronoun_mentions(text@, spans_v.take(i as int), tier),
        decreases spans@.len() - i,
    {
        let (from, to) = spans[i];
        assert(spans_v.take(i + 1).drop_last() == spans_v.take(i as int));
        assert(spans_v.take(i + 1).last() == span_view(spans@[i as int]));
        let word = text_of(&lower, from, to);
        assert(word@ =~= folded(text@.subrange(from as int, to as int)));
        if is_pronoun_word(word.as_str()) && !is_named(&out, word.as_str()) {
            let ghost before = out.deep_view();
            let mention = ExtractedMention {
                surface: text_of(&chars, from, to),
                canonical_name: word,
                entity_type: "other".to_owned(),
                source_tier: tier,
                confidence: Weight::thousandths(400),
                reference_kind: ReferenceKind::Pronoun,
            };
            let ghost m = mention.deep_view();
            out.push(mention);
            assert(out.deep_view() =~= before.push(m));
        }
        i = i + 1;
    }
    assert(spans_v.take(i as int) == spans_v);
    out
}

// --- Names -------------------------------------------------------------------

/// The words at some spans of a text.
pub open spec fn words_at(text: Seq<char>, spans: Seq<(int, int)>) -> Seq<Seq<char>> {
    spans.map_values(|p: (int, int)| text.subrange(p.0, p.1))
}

/// A word is a pronoun, in whatever case.
pub open spec fn is_pronoun_spec(word: Seq<char>) -> bool {
    pronouns().contains(lowercase_of(word))
}

/// A word starts with an uppercase letter.
pub open spec fn is_capitalised_spec(word: Seq<char>) -> bool {
    word.len() > 0 && uppercase(word[0])
}

/// A word is short and has no letter that is not uppercase.
pub open spec fn is_acronym_spec(word: Seq<char>) -> bool {
    word.len() <= 5 && forall|i: int|
        0 <= i < word.len() ==> uppercase(#[trigger] word[i]) || !alphabetic(word[i])
}

/// A word may be part of a name.
pub open spec fn is_name_word(word: Seq<char>) -> bool {
    !is_pronoun_spec(word) && is_capitalised_spec(word) && !is_acronym_spec(word)
}

/// The spans from the first on whose word is not an article.
pub open spec fn without_articles(text: Seq<char>, spans: Seq<(int, int)>) -> Seq<(int, int)>
    decreases spans.len(),
{
    if spans.len() > 0 && articles().contains(
        lowercase_of(text.subrange(spans[0].0, spans[0].1)),
    ) {
        without_articles(text, spans.drop_first())
    } else {
        spans
    }
}

/// A word without what stands behind its last letter or number.
pub open spec fn word_stem(word: Seq<char>) -> Seq<char>
    decreases word.len(),
{
    if word.len() > 0 && !alphanumeric(word.last()) {
        word_stem(word.drop_last())
    } else {
        word
    }
}

/// One of the words ends the name of an organization.
pub open spec fn names_organization(words: Seq<Seq<char>>) -> bool {
    exists|i: int|
        0 <= i < words.len() && organization_suffixes().contains(
            lowercase_of(word_stem(#[trigger] words[i])),
        )
}

/// What a name names: by its words, by the lowercase text that it stands in,
/// and by the name in lowercase.
pub open spec fn entity_type_of(
    lower: Seq<char>,
    words: Seq<Seq<char>>,
    text_lower: Seq<char>,
) -> Seq<char> {
    if names_organization(words) {
        "organization"@
    } else if any_occurs_in(text_lower, project_keywords()) {
        "project"@
    } else if known_locations().contains(lower) {
        "location"@
    } else {
        "person"@
    }
}

/// The mention of a name that is read from some words in a row: the words from
/// the first on that is not an article, with one space between each two. They
/// are quoted as they stand in the text.
pub open spec fn name_mention(
    text: Seq<char>,
    spans: Seq<(int, int)>,
    tier: SignalTier,
) -> MentionView {
    let words = words_at(text, without_articles(text, spans));
    let name = joined(words, " "@);
    MentionView {
        surface: text.subrange(without_articles(text, spans)[0].0, spans.last().1),
        canonical_name: name,
        entity_type: entity_type_of(lowercase_of(name), words, lowercase_of(text)),
        source_tier: tier,
        confidence: thousandths_spec(800),
        reference_kind: ReferenceKind::Explicit,
    }
}

/// What a scan for names has come to: the words of the name that is being read,
/// and the names that were read.
pub struct ScanView {
    pub current: Seq<(int, int)>,
    pub found: Seq<MentionView>,
}

impl ScanView {
    /// Nothing has been read.
    pub open spec fn start() -> ScanView {
        ScanView { current: Seq::empty(), found: Seq::empty() }
    }

    /// The name that is being read has ended. Articles alone are no name.
    pub open spec fn flush(self, text: Seq<char>, tier: SignalTier) -> ScanView {
        if without_articles(text, self.current).len() == 0 {
            ScanView { current: Seq::empty(), found: self.found }
        } else {
            ScanView {
                current: Seq::empty(),
                found: self.found.push(name_mention(text, self.current, tier)),
            }
        }
    }

    /// The name that is being read ends here: it has four words, or a sentence
    /// ends right behind it.
    pub open spec fn is_complete(self, text: Seq<char>) -> bool {
        self.current.len() == 4 || (self.current.len() > 0 && ends_sentence(
            text,
            self.current.last().1,
        ))
    }

    /// One more word has been read.
    pub open spec fn read(self, text: Seq<char>, span: (int, int), tier: SignalTier) -> ScanView {
        if !is_name_word(text.subrange(span.0, span.1)) {
            self.flush(text, tier)
        } else {
            let longer = ScanView { current: self.current.push(span), found: self.found };
            if longer.is_complete(text) {
                longer.flush(text, tier)
            } else {
                longer
            }
        }
    }
}

/// A sentence ends at a position.
pub open spec fn ends_sentence(text: Seq<char>, i: int) -> bool {
    0 <= i < text.len() && (text[i] == '.' || text[i] == '!' || text[i] == '?')
}

/// The scan of a text for names, after its first words.
pub open spec fn scan(text: Seq<char>, words: Seq<(int, int)>, tier: SignalTier) -> ScanView
    decreases words.len(),
{
    if words.len() == 0 {
        ScanView::start()
    } else {
        scan(text, words.drop_last(), tier).read(text, words.last(), tier)
    }
}

/// The words that a name may be made of.
pub open spec fn name_words(text: Seq<char>) -> Seq<(int, int)> {
    runs(text, WordClass::Name)
}

/// The mentions of names in a text.
pub open spec fn proper_nouns(text: Seq<char>, tier: SignalTier) -> Seq<MentionView> {
    scan(text, name_words(text), tier).flush(text, tier).found
}

/// Whether a word is a pronoun, in whatever case.
pub fn is_pronoun(word: &str) -> (r: bool)
    ensures
        r == is_pronoun_spec(word@),
{
    is_pronoun_word(lowercase(word).as_str())
}

/// Whether a word starts with an uppercase letter.
pub fn is_capitalised(word: &str) -> (r: bool)
    ensures
        r == is_capitalised_spec(word@),
{
    let chars = chars_of(word);
    chars.len() > 0 && is_uppercase(chars[0])
}

/// Whether a word is short and has no letter that is not uppercase.
pub fn is_all_caps_acronym(word: &str) -> (r: bool)
    ensures
        r == is_acronym_spec(word@),
{
    let chars = chars_of(word);
    if chars.len() > 5 {
        return false;
    }
    let mut i: usize = 0;
    while i < chars.len()
        invariant
            i <= chars@.len(),
            chars@ == word@,
            forall|k: int| 0 <= k < i ==> uppercase(#[trigger] word@[k]) || !alphabetic(word@[k]),
        decreases chars@.len() - i,
    {
        if !is_uppercase(chars[i]) && is_alphabetic(chars[i]) {
            assert(!uppercase(word@[i as int]));
            return false;
        }
        i = i + 1;
    }
    true
}

/// A word without what stands behind its last letter or number.
fn stem(word: &str) -> (r: String)
    ensures
        r@ == word_stem(word@),
{
    let chars = chars_of(word);
    let mut end: usize = chars.len();
    assert(chars@.take(end as int) == chars@);
    while end > 0 && !is_alphanumeric(chars[end - 1])
        invariant
            end <= chars@.len(),
            word_stem(chars@.take(end as int)) == word_stem(word@),
        decreases end,
    {
        assert(chars@.take(end as int).drop_last() == chars@.take(end - 1));
        end = end - 1;
    }
    assert(chars@.take(end as int) == chars@.subrange(0, end as int));
    text_of(&chars, 0, end)
}

/// What a name names, given the name in lowercase, its words and the text that
/// it stands in.
pub fn infer_entity_type(lower: &str, words: &Vec<String>, text: &str) -> (r: String)
    ensures
        r@ == entity_type_of(lower@, words.deep_view(), lowercase_of(text@)),
{
    let text_lower = lowercase(text);
    infer_type_in(lower, words, text_lower.as_str())
}

/// What a name names, given the name in lowercase, its words and the lowercase
/// text that it stands in.
pub fn infer_type_in(lower: &str, words: &Vec<String>, text_lower: &str) -> (r: String)
    ensures
        r@ == entity_type_of(lower@, words.deep_view(), text_lower@),
{
    let mut i: usize = 0;
    while i < words.len()
        invariant
            i <= words@.len(),
            forall|k: int|
                0 <= k < i ==> !organization_suffixes().contains(
                    lowercase_of(word_stem(#[trigger] words.deep_view()[k])),
                ),
        decreases words@.len() - i,
    {
        let word = lowercase(stem(words[i].as_str()).as_str());
        assert(words.deep_view()[i as int] == words@[i as int]@);
        if is_organization_suffix(word.as_str()) {
            assert(names_organization(words.deep_view()));
            return "organization".to_owned();
        }
        i = i + 1;
    }
    assert(!names_organization(words.deep_view()));
    if mentions_project(text_lower) {
        "project".to_owned()
    } else if is_known_location(lower) {
        "location".to_owned()
    } else {
        "person".to_owned()
    }
}

/// The words at some spans of a text, as positions.
pub open spec fn spans_view(spans: Seq<(usize, usize)>) -> Seq<(int, int)> {
    spans.map_values(|p: (usize, usize)| span_view(p))
}

/// Every span is non-empty and lies in a text of `n` characters, and they stand
/// in order.
pub open spec fn spans_fit(spans: Seq<(usize, usize)>, n: nat) -> bool {
    &&& forall|m: int| 0 <= m < spans.len() ==> (#[trigger] spans[m]).0 < spans[m].1 <= n
    &&& forall|m: int, k: int|
        0 <= m < k < spans.len() ==> (#[trigger] spans[m]).1 <= (#[trigger] spans[k]).0
}

/// The spans of the words that names may be made of.
pub fn word_spans(chars: &Vec<char>) -> (r: Vec<(usize, usize)>)
    ensures
        spans_view(r@) == name_words(chars@),
        spans_fit(r@, chars@.len()),
{
    let r = find_runs(chars, WordClass::Name);
    proof {
        lemma_runs_fit(chars@, WordClass::Name, r@);
    }
    r
}

proof fn lemma_runs_fit(s: Seq<char>, class: WordClass, spans: Seq<(usize, usize)>)
    requires
        spans_view(spans) == runs(s, class),
        forall|m: int| 0 <= m < spans.len() ==> (#[trigger] spans[m]).0 < spans[m].1 <= s.len(),
    ensures
        spans_fit(spans, s.len()),
{
    runs_are_the_maximal_stretches(s, class);
    assert forall|m: int, k: int| 0 <= m < k < spans.len() implies (#[trigger] spans[m]).1 <= (
    #[trigger] spans[k]).0 by {
        assert(spans_view(spans)[m] == span_view(spans[m]));
        assert(spans_view(spans)[k] == span_view(spans[k]));
        assert(runs(s, class)[m].1 < runs(s, class)[k].0);
    }
}

/// Ends the name that is being read.
fn flush_span(
    current: &mut Vec<(usize, usize)>,
    chars: &Vec<char>,
    text: &str,
    tier: SignalTier,
    out: &mut Vec<ExtractedMention>,
)
    requires
        chars@ == text@,
        spans_fit(old(current)@, chars@.len()),
    ensures
        (ScanView { current: spans_view(final(current)@), found: final(out).deep_view() }) == (
        ScanView { current: spans_view(old(current)@), found: old(out).deep_view() }).flush(
            text@,
            tier,
        ),
        spans_fit(final(current)@, chars@.len()),
        final(current)@.len() == 0,
{
    let ghost spans = spans_view(current@);
    let ghost found = out.deep_view();
    let n: usize = current.len();
    let mut first: usize = 0;
    assert(spans.skip(0) == spans);
    while first < n
        invariant_except_break
            first <= n == current@.len(),
            chars@ == text@,
            spans == spans_view(current@),
            spans_fit(current@, chars@.len()),
            without_articles(text@, spans.skip(first as int)) == without_articles(text@, spans),
        ensures
            first <= n == current@.len(),
            spans.skip(first as int) == without_articles(text@, spans),
        decreases n - first,
    {
        let (from, to) = current[first];
        let word = lowercase(text_of(chars, from, to).as_str());
        assert(spans.skip(first as int)[0] == span_view(current@[first as int]));
        if !is_article(word.as_str()) {
            break;
        }
        assert(spans.skip(first as int).drop_first() == spans.skip(first + 1));
        first = first + 1;
    }
    let ghost kept = spans.skip(first as int);
    if first >= n {
        current.clear();
        assert(spans_view(current@) =~= Seq::<(int, int)>::empty());
        return;
    }
    let mut parts: Vec<String> = Vec::new();
    let mut i: usize = first;
    while i < n
        invariant
            first <= i <= n == current@.len(),
            chars@ == text@,
            spans == spans_view(current@),
            kept == spans.skip(first as int),
            spans_fit(current@, chars@.len()),
            parts.deep_view() == words_at(text@, kept).take(i - first),
        decreases n - i,
    {
        let (from, to) = current[i];
        let ghost before = parts.deep_view();
        assert(kept[i - first] == span_view(current@[i as int]));
        let word = text_of(chars, from, to);
        parts.push(word);
        assert(parts.deep_view() =~= before.push(words_at(text@, kept)[i - first]));
        assert(words_at(text@, kept).take(i - first + 1) =~= before.push(
            words_at(text@, kept)[i - first],
        ));
        i = i + 1;
    }
    assert(parts.deep_view() =~= words_at(text@, kept));
    let name = join(&parts, " ");
    let lower = lowercase(name.as_str());
    let entity_type = infer_entity_type(lower.as_str(), &parts, text);
    let start: usize = current[first].0;
    let end: usize = current[n - 1].1;
    proof {
        assert(kept[0] == span_view(current@[first as int]));
        assert(spans.last() == span_view(current@[n - 1]));
        if first < n - 1 {
            assert(current@[first as int].1 <= current@[n - 1].0);
        }
    }
    let mention = ExtractedMention {
        surface: text_of(chars, start, end),
        canonical_name: name,
        entity_type,
        source_tier: tier,
        confidence: Weight::thousandths(800),
        reference_kind: ReferenceKind::Explicit,
    };
    current.clear();
    assert(spans_view(current@) =~= Seq::<(int, int)>::empty());
    let ghost m = mention.deep_view();
    assert(name_mention(text@, spans, tier) == m);
    out.push(mention);
    assert(out.deep_view() =~= found.push(m));
}

/// The mentions of names in a text.
pub fn extract_proper_nouns(text: &str, tier: SignalTier) -> (r: Vec<ExtractedMention>)
    ensures
        r.deep_view() == proper_nouns(text@, tier),
{
    let chars = chars_of(text);
    let words = word_spans(&chars);
    let ghost all = spans_view(words@);
    let mut out: Vec<ExtractedMention> = Vec::new();
    let mut current: Vec<(usize, usize)> = Vec::new();
    let mut i: usize = 0;
    assert(all.take(0) =~= Seq::<(int, int)>::empty());
    assert(out.deep_view() =~= Seq::<MentionView>::empty());
    assert(spans_view(current@) =~= Seq::<(int, int)>::empty());
    while i < words.len()
        invariant
            i <= words@.len(),
            chars@ == text@,
            all == spans_view(words@),
            all == name_words(text@),
            spans_fit(words@, chars@.len()),
            spans_fit(current@, chars@.len()),
            current@.len() > 0 ==> i > 0 && current@.last() == words@[i - 1],
            scan(text@, all.take(i as int), tier) == (ScanView {
                current: spans_view(current@),
                found: out.deep_view(),
            }),
        decreases words@.len() - i,
    {
        let (from, to) = words[i];
        let word = text_of(&chars, from, to);
        assert(all.take(i + 1).drop_last() == all.take(i as int));
        assert(all.take(i + 1).last() == span_view(words@[i as int]));
        if is_pronoun(word.as_str()) || !is_capitalised(word.as_str()) || is_all_caps_acronym(
            word.as_str(),
        ) {
            flush_span(&mut current, &chars, text, tier, &mut out);
        } else {
            let ghost before = current@;
            current.push((from, to));
            assert(spans_view(current@) =~= spans_view(before).push(span_view(words@[i as int])));
            proof {
                if before.len() > 0 {
                    assert(words@[i - 1].1 <= words@[i as int].0);
                }
                assert forall|m: int, k: int| 0 <= m < k < current@.len() implies (
                #[trigger] current@[m]).1 <= (#[trigger] current@[k]).0 by {
                    if k == before.len() && m < before.len() - 1 {
                        assert(before[m].1 <= before[before.len() - 1].0);
                    }
                }
            }
            let ends = to < chars.len() && (chars[to] == '.' || chars[to] == '!' || chars[to]
                == '?');
            if current.len() == 4 || ends {
                flush_span(&mut current, &chars, text, tier, &mut out);
            }
        }
        i = i + 1;
    }
    assert(all.take(i as int) == all);
    flush_span(&mut current, &chars, text, tier, &mut out);
    out
}

// --- Emails ------------------------------------------------------------------

/// A letter or number of ASCII.
pub open spec fn ascii_alphanumeric(c: char) -> bool {
    ('a' <= c && c <= 'z') || ('A' <= c && c <= 'Z') || ('0' <= c && c <= '9')
}

/// A character of an email's local part.
pub open spec fn local_char(c: char) -> bool {
    ascii_alphanumeric(c) || c == '.' || c == '_' || c == '-' || c == '+'
}

/// A character of an email's domain.
pub open spec fn domain_char(c: char) -> bool {
    ascii_alphanumeric(c) || c == '.' || c == '-'
}

fn is_ascii_alphanumeric(c: char) -> (r: bool)
    ensures
        r == ascii_alphanumeric(c),
{
    ('a' <= c && c <= 'z') || ('A' <= c && c <= 'Z') || ('0' <= c && c <= '9')
}

/// Whether a character may stand in an email's local part.
pub fn is_local_char(c: char) -> (r: bool)
    ensures
        r == local_char(c),
{
    is_ascii_alphanumeric(c) || c == '.' || c == '_' || c == '-' || c == '+'
}

/// Whether a character may stand in an email's domain.
pub fn is_domain_char(c: char) -> (r: bool)
    ensures
        r == domain_char(c),
{
    is_ascii_alphanumeric(c) || c == '.' || c == '-'
}

/// Where the local part that ends at `at` starts.
pub open spec fn local_start(s: Seq<char>, at: int) -> int
    decreases at,
{
    if 0 < at <= s.len() && local_char(s[at - 1]) {
        local_start(s, at - 1)
    } else {
        at
    }
}

/// Where the domain that starts at `i` ends.
pub open spec fn domain_end(s: Seq<char>, i: int) -> int
    decreases s.len() - i,
{
    if 0 <= i < s.len() && domain_char(s[i]) {
        domain_end(s, i + 1)
    } else {
        i
    }
}

/// An email: where it starts, its at sign, and where it ends.
pub struct EmailView {
    pub start: int,
    pub at: int,
    pub end: int,
}

/// The emails whose at sign stands at `i` or behind it. The search goes on
/// behind the domain of each at sign.
pub open spec fn emails_from(s: Seq<char>, i: int) -> Seq<EmailView>
    decreases s.len() - i,
{
    if i < 0 || i >= s.len() {
        Seq::empty()
    } else if s[i] != '@' {
        emails_from(s, i + 1)
    } else {
        let start = local_start(s, i);
        let end = domain_end(s, i + 1);
        if end <= i || end > s.len() {
            Seq::empty()
        } else if start < i && end > i + 1 {
            seq![EmailView { start, at: i, end }] + emails_from(s, end)
        } else {
            emails_from(s, end)
        }
    }
}

/// The emails in a text, left to right.
pub open spec fn emails(s: Seq<char>) -> Seq<EmailView> {
    emails_from(s, 0)
}

/// `s[start..end]` is an email: an at sign with a local part before it and a
/// domain behind it, neither of which can be made longer.
pub open spec fn is_email(s: Seq<char>, e: EmailView) -> bool {
    &&& 0 <= e.start < e.at < e.end - 1
    &&& e.end <= s.len()
    &&& s[e.at] == '@'
    &&& forall|k: int| e.start <= k < e.at ==> local_char(#[trigger] s[k])
    &&& forall|k: int| e.at < k < e.end ==> domain_char(#[trigger] s[k])
    &&& e.start == 0 || !local_char(s[e.start - 1])
    &&& e.end == s.len() || !domain_char(s[e.end])
}

proof fn lemma_local_start(s: Seq<char>, at: int)
    requires
        0 <= at <= s.len(),
    ensures
        0 <= local_start(s, at) <= at,
        forall|k: int| local_start(s, at) <= k < at ==> local_char(#[trigger] s[k]),
        local_start(s, at) == 0 || !local_char(s[local_start(s, at) - 1]),
    decreases at,
{
    if 0 < at && local_char(s[at - 1]) {
        lemma_local_start(s, at - 1);
    }
}

proof fn lemma_domain_end(s: Seq<char>, i: int)
    requires
        0 <= i <= s.len(),
    ensures
        i <= domain_end(s, i) <= s.len(),
        forall|k: int| i <= k < domain_end(s, i) ==> domain_char(#[trigger] s[k]),
        domain_end(s, i) == s.len() || !domain_char(s[domain_end(s, i)]),
    decreases s.len() - i,
{
    if i < s.len() && domain_char(s[i]) {
        lemma_domain_end(s, i + 1);
    }
}

proof fn lemma_emails_from(s: Seq<char>, i: int)
    requires
        0 <= i <= s.len(),
    ensures
        forall|m: int|
            0 <= m < emails_from(s, i).len() ==> is_email(s, #[trigger] emails_from(s, i)[m]) && i
                <= emails_from(s, i)[m].at,
        forall|e: EmailView|
            i <= e.at && #[trigger] is_email(s, e) ==> emails_from(s, i).contains(e),
    decreases s.len() - i,
{
    if i < s.len() {
        if s[i] != '@' {
            lemma_emails_from(s, i + 1);
            let next = emails_from(s, i + 1);
            assert(emails_from(s, i) == next);
            assert forall|m: int| 0 <= m < next.len() implies is_email(s, #[trigger] next[m]) && i
                <= next[m].at by {
            }
        } else {
            lemma_local_start(s, i);
            lemma_domain_end(s, i + 1);
            let start = local_start(s, i);
            let end = domain_end(s, i + 1);
            lemma_emails_from(s, end);
            let rest = emails_from(s, end);
            let all = emails_from(s, i);
            if start < i && end > i + 1 {
                assert(all == seq![EmailView { start, at: i, end }] + rest);
                assert(forall|m: int| 1 <= m < all.len() ==> #[trigger] all[m] == rest[m - 1]);
                assert(is_email(s, all[0]));
            }
            assert forall|m: int| 0 <= m < all.len() implies is_email(s, #[trigger] all[m]) && i
                <= all[m].at by {
                if start < i && end > i + 1 {
                    if m > 0 {
                        assert(is_email(s, rest[m - 1]));
                    }
                } else {
                    assert(is_email(s, rest[m]));
                }
            }
            assert forall|e: EmailView| i <= e.at && #[trigger] is_email(s, e) implies all.contains(
                e,
            ) by {
                if e.at == i {
                    if e.start < start {
                        assert(local_char(s[start - 1]));
                    }
                    if start < e.start {
                        assert(local_char(s[e.start - 1]));
                    }
                    if e.end < end {
                        assert(domain_char(s[e.end]));
                    }
                    if end < e.end {
                        assert(domain_char(s[end]));
                    }
                    assert(e == all[0]);
                } else {
                    if e.at < end {
                        assert(domain_char(s[e.at]));
                    }
                    assert(rest.contains(e));
                    let m = choose|m: int| 0 <= m < rest.len() && rest[m] == e;
                    if start < i && end > i + 1 {
                        assert(all[m + 1] == e);
                    }
                }
            }
        }
    }
}

/// The emails found in a text are exactly its emails: every at sign that has a
/// local part before it and a domain behind it, each taken as far as it goes.
pub proof fn every_email_is_found(s: Seq<char>)
    ensures
        forall|m: int| 0 <= m < emails(s).len() ==> is_email(s, #[trigger] emails(s)[m]),
        forall|e: EmailView| #[trigger] is_email(s, e) ==> emails(s).contains(e),
{
    lemma_emails_from(s, 0);
}

/// The length in UTF-8 of a text up to a position.
pub open spec fn bytes_up_to(s: Seq<char>, i: int) -> int {
    encode_utf8(s.take(i)).len() as int
}

fn width_of(c: char) -> (r: u128)
    ensures
        r == encode_scalar(c as u32).len(),
        1 <= r <= 4,
{
    proof {
        char_is_scalar(c);
    }
    let code: u32 = c as u32;
    if code < 0x80 {
        1
    } else if code < 0x800 {
        2
    } else if code < 0x1_0000 {
        3
    } else {
        4
    }
}

proof fn lemma_bytes_step(s: Seq<char>, i: int)
    requires
        0 <= i < s.len(),
    ensures
        bytes_up_to(s, i + 1) == bytes_up_to(s, i) + encode_scalar(s[i] as u32).len(),
    decreases i,
{
    let rest = s.drop_first();
    assert(s.take(i + 1).drop_first() == rest.take(i));
    if i == 0 {
        assert(rest.take(0) == Seq::<char>::empty());
        assert(s.take(0) == Seq::<char>::empty());
    } else {
        lemma_bytes_step(rest, i - 1);
        assert(s.take(i).drop_first() == rest.take(i - 1));
        assert(s.take(i)[0] == s[0] && s.take(i + 1)[0] == s[0]);
    }
}

proof fn lemma_bytes_bound(s: Seq<char>, i: int)
    requires
        0 <= i <= s.len(),
    ensures
        bytes_up_to(s, i) <= encode_utf8(s).len(),
    decreases s.len() - i,
{
    if i < s.len() {
        lemma_bytes_step(s, i);
        lemma_bytes_bound(s, i + 1);
    } else {
        assert(s.take(i) == s);
    }
}

fn bytes_before(text: &str, chars: &Vec<char>, end: usize) -> (r: usize)
    requires
        chars@ == text@,
        end <= chars@.len(),
    ensures
        r == bytes_up_to(text@, end as int),
{
    let size: usize = text.as_bytes().len();
    let mut n: u128 = 0;
    let mut i: usize = 0;
    assert(text@.take(0) == Seq::<char>::empty());
    while i < end
        invariant
            i <= end <= chars@.len(),
            chars@ == text@,
            n == bytes_up_to(text@, i as int),
            n <= 4 * i,
        decreases end - i,
    {
        proof {
            lemma_bytes_step(text@, i as int);
        }
        n = n + width_of(chars[i]);
        i = i + 1;
    }
    proof {
        lemma_bytes_bound(text@, end as int);
        assert(size == encode_utf8(text@).len());
    }
    n as usize
}

/// An email found in a text: its place in the text's UTF-8 bytes, its local part
/// and its domain.
#[derive(Debug)]
pub struct FoundEmail {
    pub start: usize,
    pub end: usize,
    pub local: String,
    pub domain: String,
}

impl FoundEmail {
    /// The email is the one at `e`.
    pub open spec fn is_at(self, s: Seq<char>, e: EmailView) -> bool {
        &&& self.start == bytes_up_to(s, e.start)
        &&& self.end == bytes_up_to(s, e.end)
        &&& self.local@ == s.subrange(e.start, e.at)
        &&& self.domain@ == s.subrange(e.at + 1, e.end)
    }
}

/// The emails in a text, left to right.
pub fn find_emails(text: &str) -> (r: Vec<FoundEmail>)
    ensures
        r@.len() == emails(text@).len(),
        forall|m: int| 0 <= m < r@.len() ==> (#[trigger] r@[m]).is_at(text@, emails(text@)[m]),
{
    let chars = chars_of(text);
    let n: usize = chars.len();
    let mut out: Vec<FoundEmail> = Vec::new();
    let ghost mut done: Seq<EmailView> = Seq::empty();
    let mut i: usize = 0;
    while i < n
        invariant
            i <= n == chars@.len(),
            chars@ == text@,
            done + emails_from(text@, i as int) == emails(text@),
            out@.len() == done.len(),
            forall|m: int| 0 <= m < out@.len() ==> (#[trigger] out@[m]).is_at(text@, done[m]),
        decreases n - i,
    {
        if chars[i] != '@' {
            i = i + 1;
        } else {
            let mut start: usize = i;
            while start > 0 && is_local_char(chars[start - 1])
                invariant
                    start <= i < n == chars@.len(),
                    chars@ == text@,
                    local_start(text@, start as int) == local_start(text@, i as int),
                decreases start,
            {
                start = start - 1;
            }
            let mut end: usize = i + 1;
            while end < n && is_domain_char(chars[end])
                invariant
                    i < end <= n == chars@.len(),
                    chars@ == text@,
                    domain_end(text@, end as int) == domain_end(text@, i + 1),
                decreases n - end,
            {
                end = end + 1;
            }
            if start < i && end > i + 1 {
                let ghost e = EmailView { start: start as int, at: i as int, end: end as int };
                let ghost rest = emails_from(text@, end as int);
                assert(emails_from(text@, i as int) == seq![e] + rest);
                assert(done.push(e) + rest == done + (seq![e] + rest));
                let local = text_of(&chars, start, i);
                let domain = text_of(&chars, i + 1, end);
                let first = bytes_before(text, &chars, start);
                let last = bytes_before(text, &chars, end);
                out.push(FoundEmail { start: first, end: last, local, domain });
                proof {
                    done = done.push(e);
                }
            }
            i = end;
        }
    }
    assert(done + emails_from(text@, n as int) == done);
    out
}

/// A text with its first character in uppercase.
pub open spec fn capitalised(s: Seq<char>) -> Seq<char> {
    if s.len() == 0 {
        Seq::empty()
    } else {
        uppercase_of(s[0]) + s.drop_first()
    }
}

/// The name that an email's local part stands for: its parts between full
/// stops, underscores and hyphens, each capitalised.
pub open spec fn candidate_name(local: Seq<char>) -> Seq<char> {
    joined(
        words_at(local, runs(local, WordClass::LocalPart)).map_values(|w: Seq<char>| capitalised(w)),
        " "@,
    )
}

/// A text with its first character in uppercase.
pub fn capitalise(s: &str) -> (r: String)
    ensures
        r@ == capitalised(s@),
{
    let chars = chars_of(s);
    let n: usize = chars.len();
    if n == 0 {
        return String::new();
    }
    let rest = text_of(&chars, 1, n);
    assert(rest@ == s@.drop_first());
    uppercase_char(chars[0]).concat(rest.as_str())
}

/// The name that an email's local part stands for.
pub fn email_to_candidate_name(local: &str) -> (r: String)
    ensures
        r@ == candidate_name(local@),
{
    let chars = chars_of(local);
    let spans = find_runs(&chars, WordClass::LocalPart);
    let ghost all = spans_view(spans@);
    let ghost names = words_at(local@, all).map_values(|w: Seq<char>| capitalised(w));
    proof {
        lemma_runs_fit(local@, WordClass::LocalPart, spans@);
    }
    let mut parts: Vec<String> = Vec::new();
    let mut i: usize = 0;
    while i < spans.len()
        invariant
            i <= spans@.len(),
            chars@ == local@,
            all == spans_view(spans@),
            names == words_at(local@, all).map_values(|w: Seq<char>| capitalised(w)),
            spans_fit(spans@, chars@.len()),
            parts.deep_view() == names.take(i as int),
        decreases spans@.len() - i,
    {
        let (from, to) = spans[i];
        let ghost before = parts.deep_view();
        let word = text_of(&chars, from, to);
        let part = capitalise(word.as_str());
        assert(all[i as int] == span_view(spans@[i as int]));
        parts.push(part);
        assert(parts.deep_view() =~= before.push(names[i as int]));
        assert(names.take(i + 1) =~= before.push(names[i as int]));
        i = i + 1;
    }
    assert(names.take(i as int) == names);
    join(&parts, " ")
}

/// The mention of an email.
pub open spec fn email_mention(text: Seq<char>, e: EmailView, tier: SignalTier) -> MentionView {
    MentionView {
        surface: text.subrange(e.start, e.end),
        canonical_name: candidate_name(text.subrange(e.start, e.at)),
        entity_type: "person"@,
        source_tier: tier,
        confidence: thousandths_spec(700),
        reference_kind: ReferenceKind::Explicit,
    }
}

/// The mentions of the emails in a text.
pub open spec fn email_mentions(text: Seq<char>, tier: SignalTier) -> Seq<MentionView> {
    emails(text).map_values(|e: EmailView| email_mention(text, e, tier))
}

/// The mentions of the emails in a text.
pub fn extract_emails(text: &str, tier: SignalTier) -> (r: Vec<ExtractedMention>)
    ensures
        r.deep_view() == email_mentions(text@, tier),
{
    let found = find_emails(text);
    let ghost all = email_mentions(text@, tier);
    let mut out: Vec<ExtractedMention> = Vec::new();
    let mut i: usize = 0;
    proof {
        every_email_is_found(text@);
    }
    while i < found.len()
        invariant
            i <= found@.len() == emails(text@).len(),
            all == email_mentions(text@, tier),
            forall|m: int|
                0 <= m < found@.len() ==> (#[trigger] found@[m]).is_at(text@, emails(text@)[m]),
            forall|m: int|
                0 <= m < emails(text@).len() ==> is_email(text@, #[trigger] emails(text@)[m]),
            out.deep_view() == all.take(i as int),
        decreases found@.len() - i,
    {
        let ghost before = out.deep_view();
        let ghost e = emails(text@)[i as int];
        assert(found@[i as int].is_at(text@, e));
        let surface = found[i].local.clone().concat("@").concat(found[i].domain.as_str());
        proof {
            reveal_strlit("@");
            assert(is_email(text@, e));
            assert(surface@ =~= text@.subrange(e.start, e.end));
        }
        let mention = ExtractedMention {
            surface,
            canonical_name: email_to_candidate_name(found[i].local.as_str()),
            entity_type: "person".to_owned(),
            source_tier: tier,
            confidence: Weight::thousandths(700),
            reference_kind: ReferenceKind::Explicit,
        };
        assert(mention.deep_view() == all[i as int]);
        out.push(mention);
        assert(out.deep_view() =~= before.push(all[i as int]));
        assert(all.take(i + 1) =~= before.push(all[i as int]));
        i = i + 1;
    }
    assert(all.take(i as int) == all);
    out
}

// --- The extractor -----------------------------------------------------------

/// Two mentions are of the same entity in the same way: their names are equal in
/// lowercase, and so are their types and kinds.
pub open spec fn same_mention(a: MentionView, b: MentionView) -> bool {
    &&& lowercase_of(a.canonical_name) == lowercase_of(b.canonical_name)
    &&& a.entity_type == b.entity_type
    &&& a.reference_kind == b.reference_kind
}

/// One of the mentions is the same as `m`.
pub open spec fn has_mention(mentions: Seq<MentionView>, m: MentionView) -> bool {
    exists|i: int| 0 <= i < mentions.len() && same_mention(#[trigger] mentions[i], m)
}

/// The mentions without those that an earlier one is the same as.
pub open spec fn distinct(mentions: Seq<MentionView>) -> Seq<MentionView>
    decreases mentions.len(),
{
    if mentions.len() == 0 {
        Seq::empty()
    } else {
        let front = distinct(mentions.drop_last());
        if has_mention(front, mentions.last()) {
            front
        } else {
            front.push(mentions.last())
        }
    }
}

/// No two of the mentions kept are the same.
pub open spec fn all_distinct(mentions: Seq<MentionView>) -> bool {
    forall|i: int, j: int|
        0 <= i < j < mentions.len() ==> !same_mention(#[trigger] mentions[i], #[trigger] mentions[j])
}

/// What is kept of some mentions: no two of them are the same, each of the
/// mentions is the same as one that is kept, and all that is kept is among them.
pub proof fn distinct_keeps_one_of_each(mentions: Seq<MentionView>)
    ensures
        all_distinct(distinct(mentions)),
        forall|i: int|
            0 <= i < mentions.len() ==> has_mention(distinct(mentions), #[trigger] mentions[i]),
        forall|m: MentionView| #[trigger]
            distinct(mentions).contains(m) ==> mentions.contains(m),
    decreases mentions.len(),
{
    if mentions.len() > 0 {
        let before = mentions.drop_last();
        distinct_keeps_one_of_each(before);
        let front = distinct(before);
        let all = distinct(mentions);
        let last = mentions.last();
        assert(mentions == before.push(last));
        if !has_mention(front, last) {
            assert(all == front.push(last));
            assert(same_mention(all[front.len() as int], last));
        }
        assert forall|i: int| 0 <= i < mentions.len() implies has_mention(
            all,
            #[trigger] mentions[i],
        ) by {
            if i < before.len() {
                assert(mentions[i] == before[i]);
                let k = choose|k: int|
                    0 <= k < front.len() && same_mention(#[trigger] front[k], before[i]);
                assert(all[k] == front[k]);
            }
        }
        assert forall|m: MentionView| #[trigger] all.contains(m) implies mentions.contains(m) by {
            let k = choose|k: int| 0 <= k < all.len() && all[k] == m;
            if k < front.len() {
                assert(front[k] == m);
                assert(front.contains(m));
                assert(before.contains(m));
                let j = choose|j: int| 0 <= j < before.len() && before[j] == m;
                assert(mentions[j] == m);
            } else {
                assert(mentions[mentions.len() - 1] == m);
            }
        }
    }
}

/// Adding mentions keeps what was kept of the earlier ones, in place.
pub proof fn earlier_mentions_stay(a: Seq<MentionView>, b: Seq<MentionView>)
    ensures
        distinct(a).len() <= distinct(a + b).len(),
        distinct(a) == distinct(a + b).take(distinct(a).len() as int),
    decreases b.len(),
{
    if b.len() == 0 {
        assert(a + b == a);
    } else {
        earlier_mentions_stay(a, b.drop_last());
        assert((a + b).drop_last() == a + b.drop_last());
    }
}

fn is_kept(keys: &Vec<String>, kept: &Vec<ExtractedMention>, key: &str, m: &ExtractedMention) -> (r:
    bool)
    requires
        keys@.len() == kept@.len(),
        forall|i: int|
            0 <= i < kept@.len() ==> (#[trigger] keys@[i])@ == lowercase_of(
                kept@[i].canonical_name@,
            ),
        key@ == lowercase_of(m.canonical_name@),
    ensures
        r == has_mention(kept.deep_view(), m.deep_view()),
{
    let mut i: usize = 0;
    while i < kept.len()
        invariant
            i <= kept@.len() == keys@.len(),
            forall|k: int|
                0 <= k < kept@.len() ==> (#[trigger] keys@[k])@ == lowercase_of(
                    kept@[k].canonical_name@,
                ),
            key@ == lowercase_of(m.canonical_name@),
            forall|k: int|
                0 <= k < i ==> !same_mention(#[trigger] kept.deep_view()[k], m.deep_view()),
        decreases kept@.len() - i,
    {
        assert(kept.deep_view()[i as int] == kept@[i as int].deep_view());
        assert(keys@[i as int]@ == lowercase_of(kept@[i as int].canonical_name@));
        if same_text(keys[i].as_str(), key) && same_text(
            kept[i].entity_type.as_str(),
            m.entity_type.as_str(),
        ) && kept[i].reference_kind == m.reference_kind {
            assert(same_mention(kept.deep_view()[i as int], m.deep_view()));
            return true;
        }
        i = i + 1;
    }
    false
}

/// The mentions without those that an earlier one is the same as.
pub fn distinct_mentions(mentions: Vec<ExtractedMention>) -> (r: Vec<ExtractedMention>)
    ensures
        r.deep_view() == distinct(mentions.deep_view()),
{
    let ghost all = mentions.deep_view();
    let mut kept: Vec<ExtractedMention> = Vec::new();
    let mut keys: Vec<String> = Vec::new();
    let mut i: usize = 0;
    assert(kept.deep_view() =~= distinct(all.take(0)));
    while i < mentions.len()
        invariant
            i <= mentions@.len(),
            all == mentions.deep_view(),
            keys@.len() == kept@.len(),
            forall|k: int|
                0 <= k < kept@.len() ==> (#[trigger] keys@[k])@ == lowercase_of(
                    kept@[k].canonical_name@,
                ),
            kept.deep_view() == distinct(all.take(i as int)),
        decreases mentions@.len() - i,
    {
        let ghost before = kept.deep_view();
        assert(all.take(i + 1).drop_last() == all.take(i as int));
        assert(all.take(i + 1).last() == mentions@[i as int].deep_view());
        let key = lowercase(mentions[i].canonical_name.as_str());
        if !is_kept(&keys, &kept, key.as_str(), &mentions[i]) {
            let mention = mentions[i].copy();
            keys.push(key);
            kept.push(mention);
            assert(kept.deep_view() =~= before.push(all[i as int]));
        }
        i = i + 1;
    }
    assert(all.take(i as int) == all);
    kept
}

/// All that the rules find in a text, in the order of the rules.
pub open spec fn all_mentions(text: Seq<char>, tier: SignalTier) -> Seq<MentionView> {
    role_mentions(text, tier, role_patterns().len() as int) + pronoun_mentions(
        text,
        runs(text, WordClass::Alphanumeric),
        tier,
    ) + proper_nouns(text, tier) + email_mentions(text, tier)
}

/// What is extracted from a text.
pub open spec fn extraction(text: Seq<char>, tier: SignalTier) -> Seq<MentionView> {
    distinct(all_mentions(text, tier))
}

fn append_mentions(out: &mut Vec<ExtractedMention>, more: Vec<ExtractedMention>)
    ensures
        final(out).deep_view() == old(out).deep_view() + more.deep_view(),
{
    let ghost first = out.deep_view();
    let ghost all = more.deep_view();
    let mut i: usize = 0;
    assert(first + all.take(0) =~= first);
    while i < more.len()
        invariant
            i <= more@.len(),
            all == more.deep_view(),
            out.deep_view() == first + all.take(i as int),
        decreases more@.len() - i,
    {
        let ghost before = out.deep_view();
        let mention = more[i].copy();
        out.push(mention);
        assert(out.deep_view() =~= before.push(all[i as int]));
        assert(first + all.take(i + 1) =~= (first + all.take(i as int)).push(all[i as int]));
        i = i + 1;
    }
    assert(all.take(i as int) == all);
}

/// The extractor that goes by rules.
#[derive(Debug, Default, Clone, Copy)]
pub struct HeuristicEntityExtractor;

impl HeuristicEntityExtractor {
    /// The extractor's name.
    pub fn extractor_id(&self) -> (r: &'static str)
        ensures
            r@ == "heuristic-v1"@,
    {
        "heuristic-v1"
    }

    /// What is extracted from a text.
    pub fn extract(&self, text: &str, source_tier: SignalTier) -> (r: IngestResult<
        Vec<ExtractedMention>,
    >)
        ensures
            r matches Ok(mentions) && mentions.deep_view() == extraction(text@, source_tier),
    {
        let mut out = extract_role_references(text, source_tier);
        append_mentions(&mut out, extract_pronouns(text, source_tier));
        append_mentions(&mut out, extract_proper_nouns(text, source_tier));
        append_mentions(&mut out, extract_emails(text, source_tier));
        Ok(distinct_mentions(out))
    }
}

// --- Laws --------------------------------------------------------------------

/// A mention is of the name made of the words from `i` up to `j`: one to four
/// words in a row, each of which may be part of a name.
pub open spec fn names_words(text: Seq<char>, m: MentionView, i: int, j: int) -> bool {
    &&& 0 <= i < j <= name_words(text).len()
    &&& j - i <= 4
    &&& m.canonical_name == joined(words_at(text, name_words(text).subrange(i, j)), " "@)
    &&& m.surface == text.subrange(name_words(text)[i].0, name_words(text)[j - 1].1)
    &&& forall|k: int|
        i <= k < j ==> is_name_word(
            text.subrange((#[trigger] name_words(text)[k]).0, name_words(text)[k].1),
        )
}

/// A mention is of a name in the text.
pub open spec fn is_name_in(text: Seq<char>, m: MentionView) -> bool {
    exists|i: int, j: int| #[trigger] names_words(text, m, i, j)
}

spec fn scan_holds(text: Seq<char>, state: ScanView, n: int) -> bool {
    &&& state.current.len() < 4
    &&& state.current.len() <= n
    &&& state.current == name_words(text).subrange(n - state.current.len(), n)
    &&& forall|k: int|
        n - state.current.len() <= k < n ==> is_name_word(
            text.subrange((#[trigger] name_words(text)[k]).0, name_words(text)[k].1),
        )
    &&& forall|k: int| 0 <= k < state.found.len() ==> is_name_in(text, #[trigger] state.found[k])
}

proof fn lemma_without_articles(text: Seq<char>, spans: Seq<(int, int)>)
    ensures
        without_articles(text, spans).len() <= spans.len(),
        without_articles(text, spans) == spans.skip(
            spans.len() - without_articles(text, spans).len(),
        ),
    decreases spans.len(),
{
    if spans.len() > 0 && articles().contains(
        lowercase_of(text.subrange(spans[0].0, spans[0].1)),
    ) {
        lemma_without_articles(text, spans.drop_first());
    } else {
        assert(spans.skip(0) == spans);
    }
}

proof fn lemma_flush_holds(text: Seq<char>, state: ScanView, tier: SignalTier, n: int)
    requires
        0 <= n <= name_words(text).len(),
        state.current.len() <= 4,
        state.current.len() <= n,
        state.current == name_words(text).subrange(n - state.current.len(), n),
        forall|k: int|
            n - state.current.len() <= k < n ==> is_name_word(
                text.subrange((#[trigger] name_words(text)[k]).0, name_words(text)[k].1),
            ),
        forall|k: int| 0 <= k < state.found.len() ==> is_name_in(text, #[trigger] state.found[k]),
    ensures
        forall|m: int| n <= m <= name_words(text).len() ==> #[trigger] scan_holds(
            text,
            state.flush(text, tier),
            m,
        ),
{
    let after = state.flush(text, tier);
    lemma_without_articles(text, state.current);
    let spans = without_articles(text, state.current);
    if spans.len() > 0 {
        let i = n - spans.len();
        assert(spans == name_words(text).subrange(i, n));
        let m = name_mention(text, state.current, tier);
        assert(spans[0] == name_words(text)[i]);
        assert(state.current.last() == name_words(text)[n - 1]);
        assert(names_words(text, m, i, n));
        assert(after.found == state.found.push(m));
    }
    assert forall|m: int| n <= m <= name_words(text).len() implies #[trigger] scan_holds(
        text,
        after,
        m,
    ) by {
        assert(after.current == name_words(text).subrange(m, m));
    }
}

proof fn lemma_scan_holds(text: Seq<char>, tier: SignalTier, n: int)
    requires
        0 <= n <= name_words(text).len(),
    ensures
        scan_holds(text, scan(text, name_words(text).take(n), tier), n),
    decreases n,
{
    let words = name_words(text);
    if n == 0 {
        assert(words.take(0) == Seq::<(int, int)>::empty());
        assert(words.subrange(0, 0) == Seq::<(int, int)>::empty());
    } else {
        assert(words.take(n).drop_last() == words.take(n - 1));
        assert(words.take(n).last() == words[n - 1]);
        lemma_scan_holds(text, tier, n - 1);
        let before = scan(text, words.take(n - 1), tier);
        let span = words[n - 1];
        if !is_name_word(text.subrange(span.0, span.1)) {
            lemma_flush_holds(text, before, tier, n - 1);
        } else {
            let longer = ScanView { current: before.current.push(span), found: before.found };
            assert(longer.current == words.subrange(n - longer.current.len(), n));
            if longer.is_complete(text) {
                lemma_flush_holds(text, longer, tier, n);
            }
        }
    }
}

/// Every name that is found is made of one to four capitalised words in a row,
/// none of which is a pronoun or an acronym, and is quoted as it stands in the
/// text, from the first of the words to the end of the last.
pub proof fn names_are_capitalised_words(text: Seq<char>, tier: SignalTier, k: int)
    requires
        0 <= k < proper_nouns(text, tier).len(),
    ensures
        is_name_in(text, proper_nouns(text, tier)[k]),
{
    let words = name_words(text);
    assert(words.take(words.len() as int) == words);
    lemma_scan_holds(text, tier, words.len() as int);
    lemma_flush_holds(text, scan(text, words, tier), tier, words.len() as int);
    assert(scan_holds(text, scan(text, words, tier).flush(text, tier), words.len() as int));
}

/// Nothing is extracted from a text twice, and everything that the rules find is
/// extracted.
pub proof fn an_extraction_is_complete(text: Seq<char>, tier: SignalTier)
    ensures
        all_distinct(extraction(text, tier)),
        forall|i: int|
            0 <= i < all_mentions(text, tier).len() ==> has_mention(
                extraction(text, tier),
                #[trigger] all_mentions(text, tier)[i],
            ),
        forall|m: MentionView| #[trigger]
            extraction(text, tier).contains(m) ==> all_mentions(text, tier).contains(m),
{
    distinct_keeps_one_of_each(all_mentions(text, tier));
}

/// A text is part of another.
pub open spec fn is_part_of(part: Seq<char>, text: Seq<char>) -> bool {
    exists|i: int, j: int| 0 <= i <= j <= text.len() && part == #[trigger] text.subrange(i, j)
}

proof fn lemma_occurs_first_before(hay: Seq<char>, needle: Seq<char>, i: int)
    requires
        occurs_at(hay, needle, i),
    ensures
        exists|j: int| occurs_first_at(hay, needle, j),
    decreases i,
{
    if exists|k: int| k < i && occurs_at(hay, needle, k) {
        let k = choose|k: int| k < i && occurs_at(hay, needle, k);
        lemma_occurs_first_before(hay, needle, k);
    } else {
        assert(occurs_first_at(hay, needle, i));
    }
}

proof fn lemma_roles_are_quoted(text: Seq<char>, tier: SignalTier, n: int, k: int)
    requires
        n <= role_patterns().len(),
        0 <= k < role_mentions(text, tier, n).len(),
    ensures
        is_part_of(role_mentions(text, tier, n)[k].surface, text),
    decreases n,
{
    let front = role_mentions(text, tier, n - 1);
    if k < front.len() {
        lemma_roles_are_quoted(text, tier, n - 1, k);
    } else {
        let role = role_patterns()[n - 1];
        let lower = folded(text);
        let at = choose|i: int| occurs_at(lower, role, i);
        lemma_occurs_first_before(lower, role, at);
        let i = first_place(lower, role);
        assert(occurs_first_at(lower, role, i));
        assert(role_mentions(text, tier, n)[k].surface == text.subrange(i, i + role.len()));
    }
}

proof fn lemma_pronouns_are_quoted(
    text: Seq<char>,
    spans: Seq<(int, int)>,
    tier: SignalTier,
    k: int,
)
    requires
        forall|m: int| 0 <= m < spans.len() ==> 0 <= (#[trigger] spans[m]).0 <= spans[m].1 <= text.len(),
        0 <= k < pronoun_mentions(text, spans, tier).len(),
    ensures
        is_part_of(pronoun_mentions(text, spans, tier)[k].surface, text),
    decreases spans.len(),
{
    let before = spans.drop_last();
    assert(forall|m: int| 0 <= m < before.len() ==> #[trigger] before[m] == spans[m]);
    if k < pronoun_mentions(text, before, tier).len() {
        lemma_pronouns_are_quoted(text, before, tier, k);
    } else {
        let last = spans[spans.len() - 1];
        assert(pronoun_mentions(text, spans, tier)[k].surface == text.subrange(last.0, last.1));
    }
}

/// Every mention quotes the text: what it gives as its surface stands in the
/// text just so.
pub proof fn every_surface_stands_in_the_text(text: Seq<char>, tier: SignalTier, k: int)
    requires
        0 <= k < all_mentions(text, tier).len(),
    ensures
        is_part_of(all_mentions(text, tier)[k].surface, text),
{
    let roles = role_mentions(text, tier, role_patterns().len() as int);
    let words = runs(text, WordClass::Alphanumeric);
    let pronouns = pronoun_mentions(text, words, tier);
    let names = proper_nouns(text, tier);
    let first = roles.len() as int;
    let second = first + pronouns.len();
    let third = second + names.len();
    if k < first {
        lemma_roles_are_quoted(text, tier, role_patterns().len() as int, k);
    } else if k < second {
        runs_are_the_maximal_stretches(text, WordClass::Alphanumeric);
        assert forall|m: int| 0 <= m < words.len() implies 0 <= (#[trigger] words[m]).0
            <= words[m].1 <= text.len() by {
            assert(is_run(text, WordClass::Alphanumeric, words[m].0, words[m].1));
        }
        lemma_pronouns_are_quoted(text, words, tier, k - first);
    } else if k < third {
        names_are_capitalised_words(text, tier, k - second);
        let m = names[k - second];
        let (i, j) = choose|i: int, j: int| #[trigger] names_words(text, m, i, j);
        runs_are_the_maximal_stretches(text, WordClass::Name);
        let spans = name_words(text);
        assert(is_run(text, WordClass::Name, spans[i].0, spans[i].1));
        assert(is_run(text, WordClass::Name, spans[j - 1].0, spans[j - 1].1));
        if i < j - 1 {
            assert(spans[i].1 < spans[j - 1].0);
        }
        assert(m.surface == text.subrange(spans[i].0, spans[j - 1].1));
    } else {
        every_email_is_found(text);
        let e = emails(text)[k - third];
        assert(is_email(text, e));
        assert(all_mentions(text, tier)[k] == email_mention(text, e, tier));
        assert(all_mentions(text, tier)[k].surface == text.subrange(e.start, e.end));
    }
}

// --- Completeness ------------------------------------------------------------

/// The word at position `k` of the words that names are made of.
pub open spec fn word_at(text: Seq<char>, k: int) -> Seq<char> {
    text.subrange(name_words(text)[k].0, name_words(text)[k].1)
}

/// The word at position `k` may be part of a name.
pub open spec fn may_name(text: Seq<char>, k: int) -> bool {
    is_name_word(word_at(text, k))
}

/// A sentence ends right behind the word at position `k`.
pub open spec fn ends_at(text: Seq<char>, k: int) -> bool {
    ends_sentence(text, name_words(text)[k].1)
}

/// A stretch of words is read as one name: one to four words that may be part of
/// a name, with no end of a sentence between them. It goes as far as it can: it
/// has four words, or ends a sentence or the text, or comes before a word that is
/// no part of a name; and it starts behind such a place.
pub open spec fn is_stretch(text: Seq<char>, a: int, b: int) -> bool {
    &&& 0 <= a < b <= name_words(text).len()
    &&& b - a <= 4
    &&& forall|k: int| a <= k < b ==> #[trigger] may_name(text, k)
    &&& forall|k: int| a <= k < b - 1 ==> !#[trigger] ends_at(text, k)
    &&& b - a == 4 || b == name_words(text).len() || ends_at(text, b - 1) || !may_name(text, b)
    &&& starts_stretch(text, a)
}

/// A stretch may start at position `a`.
pub open spec fn starts_stretch(text: Seq<char>, a: int) -> bool {
    ||| a == 0
    ||| !may_name(text, a - 1)
    ||| ends_at(text, a - 1)
    ||| a >= 4 && forall|k: int| a - 4 <= k < a ==> #[trigger] may_name(text, k)
}

/// The word at position `k` is an article.
pub open spec fn is_article_at(text: Seq<char>, k: int) -> bool {
    articles().contains(lowercase_of(word_at(text, k)))
}

/// One of the mentions is of the name made of the words from `f` up to `b`.
pub open spec fn names_stretch(
    text: Seq<char>,
    mentions: Seq<MentionView>,
    tier: SignalTier,
    f: int,
    b: int,
) -> bool {
    exists|m: int|
        {
            &&& 0 <= m < mentions.len()
            &&& names_words(text, #[trigger] mentions[m], f, b)
            &&& mentions[m].entity_type == entity_type_of(
                lowercase_of(mentions[m].canonical_name),
                words_at(text, name_words(text).subrange(f, b)),
                lowercase_of(text),
            )
            &&& mentions[m].source_tier == tier
            &&& mentions[m].confidence == (Weight { millionths: 800_000 })
            &&& mentions[m].reference_kind == ReferenceKind::Explicit
        }
}

/// The stretch of words that position `k` belongs to is among the mentions: the
/// articles at its start are left out, and the rest, if any, is named.
pub open spec fn is_covered(
    text: Seq<char>,
    mentions: Seq<MentionView>,
    tier: SignalTier,
    k: int,
) -> bool {
    exists|a: int, f: int, b: int| #[trigger]
        covers_word(text, mentions, tier, k, a, f, b)
}

/// Position `k` belongs to the stretch from `a` to `b`, of which the words before
/// `f` are articles and the others are named.
pub open spec fn covers_word(
    text: Seq<char>,
    mentions: Seq<MentionView>,
    tier: SignalTier,
    k: int,
    a: int,
    f: int,
    b: int,
) -> bool {
    &&& is_stretch(text, a, b)
    &&& a <= k < b
    &&& a <= f <= b
    &&& forall|x: int| a <= x < f ==> #[trigger] is_article_at(text, x)
    &&& f < b ==> !is_article_at(text, f) && names_stretch(text, mentions, tier, f, b)
}

proof fn lemma_covered_by_more(
    text: Seq<char>,
    few: Seq<MentionView>,
    more: Seq<MentionView>,
    tier: SignalTier,
    k: int,
)
    requires
        few.is_prefix_of(more),
        is_covered(text, few, tier, k),
    ensures
        is_covered(text, more, tier, k),
{
    let (a, f, b) = choose|a: int, f: int, b: int| #[trigger]
        covers_word(text, few, tier, k, a, f, b);
    if f < b {
        let m = choose|m: int|
            {
                &&& 0 <= m < few.len()
                &&& names_words(text, #[trigger] few[m], f, b)
                &&& few[m].entity_type == entity_type_of(
                    lowercase_of(few[m].canonical_name),
                    words_at(text, name_words(text).subrange(f, b)),
                    lowercase_of(text),
                )
                &&& few[m].source_tier == tier
                &&& few[m].confidence == (Weight { millionths: 800_000 })
                &&& few[m].reference_kind == ReferenceKind::Explicit
            };
        assert(more[m] == few[m]);
    }
    assert(covers_word(text, more, tier, k, a, f, b));
}

spec fn scan_covers(text: Seq<char>, state: ScanView, tier: SignalTier, n: int) -> bool {
    let a = n - state.current.len();
    &&& scan_holds(text, state, n)
    &&& starts_stretch(text, a)
    &&& forall|k: int| a <= k < n ==> !#[trigger] ends_at(text, k)
    &&& forall|k: int|
        0 <= k < a && #[trigger] may_name(text, k) ==> is_covered(text, state.found, tier, k)
}

proof fn lemma_leading_articles(text: Seq<char>, spans: Seq<(int, int)>, a: int, b: int)
    requires
        0 <= a <= b <= name_words(text).len(),
        spans == name_words(text).subrange(a, b),
    ensures
        ({
            let f = b - without_articles(text, spans).len();
            &&& a <= f <= b
            &&& without_articles(text, spans) == name_words(text).subrange(f, b)
            &&& forall|x: int| a <= x < f ==> #[trigger] is_article_at(text, x)
            &&& f < b ==> !is_article_at(text, f)
        }),
    decreases b - a,
{
    if a < b {
        assert(spans[0] == name_words(text)[a]);
        if is_article_at(text, a) {
            assert(spans.drop_first() =~= name_words(text).subrange(a + 1, b));
            lemma_leading_articles(text, spans.drop_first(), a + 1, b);
        }
    }
}

/// A stretch that has been read is covered once it is flushed.
proof fn lemma_flush_covers(text: Seq<char>, state: ScanView, tier: SignalTier, n: int)
    requires
        0 <= n <= name_words(text).len(),
        state.current.len() <= 4,
        state.current.len() <= n,
        state.current == name_words(text).subrange(n - state.current.len(), n),
        forall|k: int| n - state.current.len() <= k < n ==> #[trigger] may_name(text, k),
        forall|k: int| n - state.current.len() <= k < n - 1 ==> !#[trigger] ends_at(text, k),
        starts_stretch(text, n - state.current.len()),
        state.current.len() > 0 ==> state.current.len() == 4 || n == name_words(text).len()
            || ends_at(text, n - 1) || !may_name(text, n),
        forall|k: int|
            0 <= k < n - state.current.len() && #[trigger] may_name(text, k) ==> is_covered(
                text,
                state.found,
                tier,
                k,
            ),
    ensures
        forall|k: int|
            0 <= k < n && #[trigger] may_name(text, k) ==> is_covered(
                text,
                state.flush(text, tier).found,
                tier,
                k,
            ),
        state.flush(text, tier).current.len() == 0,
{
    let a = n - state.current.len();
    let after = state.flush(text, tier);
    let kept = without_articles(text, state.current);
    lemma_leading_articles(text, state.current, a, n);
    let f = n - kept.len();
    assert(state.found.is_prefix_of(after.found));
    if kept.len() > 0 {
        let m = name_mention(text, state.current, tier);
        assert(kept[0] == name_words(text)[f]);
        assert(state.current.last() == name_words(text)[n - 1]);
        assert forall|k: int| f <= k < n implies is_name_word(
            text.subrange((#[trigger] name_words(text)[k]).0, name_words(text)[k].1),
        ) by {
            assert(may_name(text, k));
        }
        assert(names_words(text, m, f, n));
        assert(after.found[state.found.len() as int] == m);
        assert(names_stretch(text, after.found, tier, f, n));
    }
    assert forall|k: int| 0 <= k < n && #[trigger] may_name(text, k) implies is_covered(
        text,
        after.found,
        tier,
        k,
    ) by {
        if k < a {
            lemma_covered_by_more(text, state.found, after.found, tier, k);
        } else {
            assert(is_stretch(text, a, n));
            assert(covers_word(text, after.found, tier, k, a, f, n));
        }
    }
}

proof fn lemma_scan_covers(text: Seq<char>, tier: SignalTier, n: int)
    requires
        0 <= n <= name_words(text).len(),
    ensures
        scan_covers(text, scan(text, name_words(text).take(n), tier), tier, n),
    decreases n,
{
    let words = name_words(text);
    lemma_scan_holds(text, tier, n);
    if n == 0 {
        assert(words.take(0) == Seq::<(int, int)>::empty());
    } else {
        assert(words.take(n).drop_last() == words.take(n - 1));
        assert(words.take(n).last() == words[n - 1]);
        lemma_scan_covers(text, tier, n - 1);
        let before = scan(text, words.take(n - 1), tier);
        let after = scan(text, words.take(n), tier);
        let span = words[n - 1];
        let a = n - 1 - before.current.len();
        assert forall|k: int| a <= k < n - 1 implies #[trigger] may_name(text, k) by {
            assert(is_name_word(text.subrange(words[k].0, words[k].1)));
        }
        if !may_name(text, n - 1) {
            lemma_flush_covers(text, before, tier, n - 1);
            assert(after == before.flush(text, tier));
        } else {
            let longer = ScanView { current: before.current.push(span), found: before.found };
            assert(longer.current == words.subrange(n - longer.current.len(), n));
            assert(longer.current.last() == span);
            if longer.is_complete(text) {
                lemma_flush_covers(text, longer, tier, n);
                assert(after == longer.flush(text, tier));
                if longer.current.len() == 4 {
                    assert forall|k: int| n - 4 <= k < n implies #[trigger] may_name(text, k) by {}
                }
                assert(starts_stretch(text, n));
            } else {
                assert(after == longer);
            }
        }
    }
}

/// No name is passed over: every word of the text that is capitalised, no pronoun
/// and no acronym belongs to a stretch of such words, and the name that the
/// stretch makes, without the articles at its start, is found.
pub proof fn every_name_is_found(text: Seq<char>, tier: SignalTier, k: int)
    requires
        0 <= k < name_words(text).len(),
        may_name(text, k),
    ensures
        is_covered(text, proper_nouns(text, tier), tier, k),
{
    let words = name_words(text);
    let n = words.len() as int;
    assert(words.take(n) == words);
    lemma_scan_covers(text, tier, n);
    let state = scan(text, words, tier);
    assert forall|j: int| n - state.current.len() <= j < n implies #[trigger] may_name(text, j) by {
        assert(is_name_word(text.subrange(words[j].0, words[j].1)));
    }
    lemma_flush_covers(text, state, tier, n);
}

/// What a name is made of: words of letters, numbers and apostrophes, taken as
/// far as they go; capitalised ones, that is, with an uppercase letter first, that
/// are no pronoun in whatever case, and no acronym, that is, with a letter that is
/// not uppercase or more than five characters.
pub proof fn what_a_name_is_made_of(text: Seq<char>, i: int, j: int, word: Seq<char>)
    ensures
        name_words(text).contains((i, j)) <==> {
            &&& 0 <= i < j <= text.len()
            &&& forall|k: int| i <= k < j ==> alphanumeric(#[trigger] text[k]) || text[k] == '\''
            &&& i == 0 || !(alphanumeric(text[i - 1]) || text[i - 1] == '\'')
            &&& j == text.len() || !(alphanumeric(text[j]) || text[j] == '\'')
        },
        is_name_word(word) <==> {
            &&& word.len() > 0
            &&& uppercase(word[0])
            &&& !pronouns().contains(lowercase_of(word))
            &&& word.len() > 5 || exists|k: int|
                0 <= k < word.len() && !uppercase(#[trigger] word[k]) && alphabetic(word[k])
        },
{
    runs_are_the_maximal_stretches(text, WordClass::Name);
    let words = name_words(text);
    if words.contains((i, j)) {
        let m = choose|m: int| 0 <= m < words.len() && words[m] == (i, j);
        assert(is_run(text, WordClass::Name, words[m].0, words[m].1));
        assert forall|k: int| i <= k < j implies alphanumeric(#[trigger] text[k]) || text[k]
            == '\'' by {
            assert(WordClass::Name.has(text[k]));
        }
    }
    if 0 <= i < j <= text.len() && (forall|k: int|
        i <= k < j ==> alphanumeric(#[trigger] text[k]) || text[k] == '\'') && (i == 0 || !(
    alphanumeric(text[i - 1]) || text[i - 1] == '\'')) && (j == text.len() || !(alphanumeric(
        text[j],
    ) || text[j] == '\'')) {
        assert(is_run(text, WordClass::Name, i, j));
    }
}

/// What a name names: an organization, where one of its words, without what
/// stands behind its last letter or number, ends the name of one; else a project,
/// where the text speaks of one; else a location, where it is known as one; else a
/// person.
pub proof fn what_a_name_names(lower: Seq<char>, words: Seq<Seq<char>>, text_lower: Seq<char>)
    ensures
        ({
            let organization = exists|i: int|
                0 <= i < words.len() && organization_suffixes().contains(
                    lowercase_of(word_stem(#[trigger] words[i])),
                );
            let project = exists|i: int|
                0 <= i < project_keywords().len() && occurs_in(
                    text_lower,
                    #[trigger] project_keywords()[i],
                );
            let r = entity_type_of(lower, words, text_lower);
            &&& organization ==> r == "organization"@
            &&& !organization && project ==> r == "project"@
            &&& !organization && !project && known_locations().contains(lower) ==> r == "location"@
            &&& !organization && !project && !known_locations().contains(lower) ==> r == "person"@
        }),
{
}

/// The stem of a word ends with a letter or a number, and nothing but other
/// characters is cut off.
pub proof fn a_stem_ends_with_a_letter_or_number(word: Seq<char>)
    ensures
        word_stem(word).is_prefix_of(word),
        word_stem(word).len() > 0 ==> alphanumeric(word_stem(word).last()),
        forall|i: int|
            word_stem(word).len() <= i < word.len() ==> !alphanumeric(#[trigger] word[i]),
    decreases word.len(),
{
    if word.len() > 0 && !alphanumeric(word.last()) {
        let rest = word.drop_last();
        a_stem_ends_with_a_letter_or_number(rest);
        assert forall|i: int| word_stem(word).len() <= i < word.len() implies !alphanumeric(
            #[trigger] word[i],
        ) by {
            if i < rest.len() {
                assert(rest[i] == word[i]);
            }
        }
    }
}

/// Letters of ASCII are put into lowercase, and no other character is touched.
pub proof fn folding_touches_ascii_only(s: Seq<char>)
    ensures
        folded(s).len() == s.len(),
        forall|i: int|
            0 <= i < s.len() ==> if 'A' <= s[i] <= 'Z' {
                #[trigger] folded(s)[i] as int == s[i] as int + 32
            } else {
                folded(s)[i] == s[i]
            },
{
}

proof fn lemma_roles_found(text: Seq<char>, tier: SignalTier, n: int, r: int)
    requires
        0 <= r < n <= role_patterns().len(),
        occurs_in(folded(text), role_patterns()[r]),
    ensures
        role_mentions(text, tier, n).contains(
            role_mention(role_surface(text, role_patterns()[r]), role_patterns()[r], tier),
        ),
    decreases n,
{
    let wanted = role_mention(role_surface(text, role_patterns()[r]), role_patterns()[r], tier);
    let front = role_mentions(text, tier, n - 1);
    let all = role_mentions(text, tier, n);
    if r < n - 1 {
        lemma_roles_found(text, tier, n - 1, r);
        let k = choose|k: int| 0 <= k < front.len() && front[k] == wanted;
        assert(all[k] == wanted);
    } else {
        assert(all[front.len() as int] == wanted);
    }
}

proof fn lemma_role_occurs(text: Seq<char>, tier: SignalTier, n: int, k: int)
    requires
        n <= role_patterns().len(),
        0 <= k < role_mentions(text, tier, n).len(),
    ensures
        exists|r: int|
            0 <= r < n && occurs_in(folded(text), #[trigger] role_patterns()[r])
                && role_mentions(text, tier, n)[k] == role_mention(
                role_surface(text, role_patterns()[r]),
                role_patterns()[r],
                tier,
            ),
    decreases n,
{
    let front = role_mentions(text, tier, n - 1);
    if k < front.len() {
        lemma_role_occurs(text, tier, n - 1, k);
        let r = choose|r: int|
            0 <= r < n - 1 && occurs_in(folded(text), #[trigger] role_patterns()[r]) && front[k]
                == role_mention(
                role_surface(text, role_patterns()[r]),
                role_patterns()[r],
                tier,
            );
        assert(role_mentions(text, tier, n)[k] == front[k]);
        assert(occurs_in(folded(text), role_patterns()[r]));
    } else {
        assert(occurs_in(folded(text), role_patterns()[n - 1]));
    }
}

/// Every role that occurs in a text, in whatever case, is mentioned, and no other
/// is; it is quoted where it occurs first.
pub proof fn every_role_is_found(text: Seq<char>, tier: SignalTier, role: Seq<char>)
    requires
        role_patterns().contains(role),
    ensures
        ({
            let found = role_mentions(text, tier, role_patterns().len() as int);
            &&& has_canonical_name(found, role) <==> occurs_in(folded(text), role)
            &&& forall|k: int|
                0 <= k < found.len() && (#[trigger] found[k]).canonical_name == role ==> {
                    &&& found[k].entity_type == "other"@
                    &&& found[k].source_tier == tier
                    &&& found[k].confidence == (Weight { millionths: 600_000 })
                    &&& found[k].reference_kind == ReferenceKind::Role
                    &&& exists|i: int| #[trigger]
                        occurs_first_at(folded(text), role, i) && found[k].surface == text.subrange(
                            i,
                            i + role.len(),
                        )
                }
        }),
{
    let n = role_patterns().len() as int;
    let found = role_mentions(text, tier, n);
    let lower = folded(text);
    if occurs_in(lower, role) {
        let r = choose|r: int| 0 <= r < n && role_patterns()[r] == role;
        lemma_roles_found(text, tier, n, r);
        let k = choose|k: int|
            0 <= k < found.len() && found[k] == role_mention(role_surface(text, role), role, tier);
        assert(found[k].canonical_name == role);
    }
    if has_canonical_name(found, role) {
        let k = choose|k: int|
            0 <= k < found.len() && (#[trigger] found[k]).canonical_name == role;
        lemma_role_occurs(text, tier, n, k);
    }
    assert forall|k: int| 0 <= k < found.len() && (#[trigger] found[k]).canonical_name == role implies ({
        &&& found[k].entity_type == "other"@
        &&& found[k].source_tier == tier
        &&& found[k].confidence == (Weight { millionths: 600_000 })
        &&& found[k].reference_kind == ReferenceKind::Role
        &&& exists|i: int| #[trigger]
            occurs_first_at(folded(text), role, i) && found[k].surface == text.subrange(
                i,
                i + role.len(),
            )
    }) by {
        lemma_role_occurs(text, tier, n, k);
        let at = choose|i: int| occurs_at(lower, role, i);
        lemma_occurs_first_before(lower, role, at);
        assert(occurs_first_at(lower, role, first_place(lower, role)));
    }
}

proof fn lemma_pronouns_found(text: Seq<char>, spans: Seq<(int, int)>, tier: SignalTier)
    ensures
        ({
            let found = pronoun_mentions(text, spans, tier);
            &&& forall|w: int|
                0 <= w < spans.len() && pronouns().contains(
                    folded(text.subrange((#[trigger] spans[w]).0, spans[w].1)),
                ) ==> has_canonical_name(found, folded(text.subrange(spans[w].0, spans[w].1)))
            &&& forall|k: int|
                0 <= k < found.len() ==> {
                    &&& pronouns().contains((#[trigger] found[k]).canonical_name)
                    &&& exists|w: int|
                        0 <= w < spans.len() && found[k] == pronoun_mention(
                            text.subrange((#[trigger] spans[w]).0, spans[w].1),
                            tier,
                        )
                }
            &&& forall|i: int, j: int|
                0 <= i < j < found.len() ==> (#[trigger] found[i]).canonical_name != (
                #[trigger] found[j]).canonical_name
        }),
    decreases spans.len(),
{
    if spans.len() > 0 {
        let before = spans.drop_last();
        lemma_pronouns_found(text, before, tier);
        let front = pronoun_mentions(text, before, tier);
        let found = pronoun_mentions(text, spans, tier);
        let last = spans.last();
        let word = text.subrange(last.0, last.1);
        assert(spans[spans.len() - 1] == last);
        assert forall|name: Seq<char>| #[trigger] has_canonical_name(
            front,
            name,
        ) implies has_canonical_name(found, name) by {
            let i = choose|i: int|
                0 <= i < front.len() && (#[trigger] front[i]).canonical_name == name;
            assert(found[i] == front[i]);
        }
        if pronouns().contains(folded(word)) && !has_canonical_name(front, folded(word)) {
            assert(found[front.len() as int].canonical_name == folded(word));
        }
        assert forall|w: int|
            0 <= w < spans.len() && pronouns().contains(
                folded(text.subrange((#[trigger] spans[w]).0, spans[w].1)),
            ) implies has_canonical_name(
            found,
            folded(text.subrange(spans[w].0, spans[w].1)),
        ) by {
            if w < before.len() {
                assert(before[w] == spans[w]);
            }
        }
        assert forall|k: int| 0 <= k < found.len() implies ({
            &&& pronouns().contains((#[trigger] found[k]).canonical_name)
            &&& exists|w: int|
                0 <= w < spans.len() && found[k] == pronoun_mention(
                    text.subrange((#[trigger] spans[w]).0, spans[w].1),
                    tier,
                )
        }) by {
            if k < front.len() {
                assert(found[k] == front[k]);
                let w = choose|w: int|
                    0 <= w < before.len() && front[k] == pronoun_mention(
                        text.subrange((#[trigger] before[w]).0, before[w].1),
                        tier,
                    );
                assert(spans[w] == before[w]);
            }
        }
        assert forall|i: int, j: int| 0 <= i < j < found.len() implies (
        #[trigger] found[i]).canonical_name != (#[trigger] found[j]).canonical_name by {
            assert(found[i] == front[i]);
            if j < front.len() {
                assert(found[j] == front[j]);
            } else if front[i].canonical_name == folded(word) {
                assert(has_canonical_name(front, folded(word)));
            }
        }
    }
}

/// Every pronoun among the words of a text, in whatever case, is mentioned, once;
/// and every such mention quotes a pronoun of the text.
pub proof fn every_pronoun_is_found(text: Seq<char>, tier: SignalTier)
    ensures
        ({
            let found = pronoun_mentions(text, runs(text, WordClass::Alphanumeric), tier);
            &&& forall|i: int, j: int|
                is_run(text, WordClass::Alphanumeric, i, j) && pronouns().contains(
                    folded(#[trigger] text.subrange(i, j)),
                ) ==> has_canonical_name(found, folded(text.subrange(i, j)))
            &&& forall|k: int|
                0 <= k < found.len() ==> {
                    &&& pronouns().contains((#[trigger] found[k]).canonical_name)
                    &&& found[k].canonical_name == folded(found[k].surface)
                    &&& found[k].entity_type == "other"@
                    &&& found[k].source_tier == tier
                    &&& found[k].confidence == (Weight { millionths: 400_000 })
                    &&& found[k].reference_kind == ReferenceKind::Pronoun
                }
            &&& forall|i: int, j: int|
                0 <= i < j < found.len() ==> (#[trigger] found[i]).canonical_name != (
                #[trigger] found[j]).canonical_name
        }),
{
    let spans = runs(text, WordClass::Alphanumeric);
    let found = pronoun_mentions(text, spans, tier);
    lemma_pronouns_found(text, spans, tier);
    runs_are_the_maximal_stretches(text, WordClass::Alphanumeric);
    assert forall|i: int, j: int|
        is_run(text, WordClass::Alphanumeric, i, j) && pronouns().contains(
            folded(#[trigger] text.subrange(i, j)),
        ) implies has_canonical_name(found, folded(text.subrange(i, j))) by {
        assert(spans.contains((i, j)));
        let w = choose|w: int| 0 <= w < spans.len() && spans[w] == (i, j);
        assert(pronouns().contains(folded(text.subrange(spans[w].0, spans[w].1))));
    }
}

/// Every email is mentioned: a person, under the name that its local part stands
/// for, its parts between full stops, underscores and hyphens, each with its first
/// character in uppercase and with one space between each two.
pub proof fn every_email_is_mentioned(text: Seq<char>, tier: SignalTier, e: EmailView)
    requires
        is_email(text, e),
    ensures
        ({
            let local = text.subrange(e.start, e.at);
            let parts = runs(local, WordClass::LocalPart);
            exists|m: int, names: Seq<Seq<char>>|
                {
                    &&& 0 <= m < email_mentions(text, tier).len()
                    &&& (#[trigger] email_mentions(text, tier)[m]) == (MentionView {
                        surface: text.subrange(e.start, e.end),
                        canonical_name: #[trigger] joined(names, " "@),
                        entity_type: "person"@,
                        source_tier: tier,
                        confidence: Weight { millionths: 700_000 },
                        reference_kind: ReferenceKind::Explicit,
                    })
                    &&& names.len() == parts.len()
                    &&& forall|k: int|
                        0 <= k < parts.len() ==> #[trigger] names[k] == uppercase_of(
                            local[parts[k].0],
                        ) + local.subrange(parts[k].0 + 1, parts[k].1)
                }
        }),
{
    every_email_is_found(text);
    let m = choose|m: int| 0 <= m < emails(text).len() && emails(text)[m] == e;
    let local = text.subrange(e.start, e.at);
    let parts = runs(local, WordClass::LocalPart);
    let names = words_at(local, parts).map_values(|w: Seq<char>| capitalised(w));
    runs_are_the_maximal_stretches(local, WordClass::LocalPart);
    assert forall|k: int| 0 <= k < parts.len() implies #[trigger] names[k] == uppercase_of(
        local[parts[k].0],
    ) + local.subrange(parts[k].0 + 1, parts[k].1) by {
        assert(is_run(local, WordClass::LocalPart, parts[k].0, parts[k].1));
        let word = local.subrange(parts[k].0, parts[k].1);
        assert(word.drop_first() =~= local.subrange(parts[k].0 + 1, parts[k].1));
        assert(names[k] == capitalised(word));
    }
    assert(email_mentions(text, tier)[m] == email_mention(text, e, tier));
    assert(candidate_name(local) == joined(names, " "@));
}

/// What an email is made of: letters and numbers of ASCII, and the other
/// characters that may stand on either side of its at sign.
pub proof fn what_an_email_is_made_of(c: char)
    ensures
        ({
            let plain = 'a' <= c <= 'z' || 'A' <= c <= 'Z' || '0' <= c <= '9';
            &&& local_char(c) <==> plain || c == '.' || c == '_' || c == '-' || c == '+'
            &&& domain_char(c) <==> plain || c == '.' || c == '-'
        }),
{
}

/// What is found in a text is what each of the rules finds: the roles, the
/// pronouns, the names and the emails.
pub proof fn every_rule_counts(text: Seq<char>, tier: SignalTier, m: MentionView)
    ensures
        all_mentions(text, tier).contains(m) <==> {
            ||| role_mentions(text, tier, role_patterns().len() as int).contains(m)
            ||| pronoun_mentions(text, runs(text, WordClass::Alphanumeric), tier).contains(m)
            ||| proper_nouns(text, tier).contains(m)
            ||| email_mentions(text, tier).contains(m)
        },
{
    let a = role_mentions(text, tier, role_patterns().len() as int);
    let b = pronoun_mentions(text, runs(text, WordClass::Alphanumeric), tier);
    let c = proper_nouns(text, tier);
    let d = email_mentions(text, tier);
    let all = all_mentions(text, tier);
    assert(all == a + b + c + d);
    let ab = a.len() + b.len();
    let abc = ab + c.len();
    if a.contains(m) {
        let i = choose|i: int| 0 <= i < a.len() && a[i] == m;
        assert(all[i] == m);
    }
    if b.contains(m) {
        let i = choose|i: int| 0 <= i < b.len() && b[i] == m;
        assert(all[a.len() + i] == m);
    }
    if c.contains(m) {
        let i = choose|i: int| 0 <= i < c.len() && c[i] == m;
        assert(all[ab + i] == m);
    }
    if d.contains(m) {
        let i = choose|i: int| 0 <= i < d.len() && d[i] == m;
        assert(all[abc + i] == m);
    }
    if all.contains(m) {
        let i = choose|i: int| 0 <= i < all.len() && all[i] == m;
        if i < a.len() {
            assert(a[i] == m);
        } else if i < ab {
            assert(b[i - a.len()] == m);
        } else if i < abc {
            assert(c[i - ab] == m);
        } else {
            assert(d[i - abc] == m);
        }
    }
}

/// Two mentions are taken for the same where their names are, in whatever case,
/// and their types and kinds are; the one that stands first is kept.
pub proof fn the_first_of_the_same_mentions_is_kept(
    mentions: Seq<MentionView>,
    m: MentionView,
    x: MentionView,
)
    ensures
        same_mention(m, x) <==> lowercase_of(m.canonical_name) == lowercase_of(x.canonical_name)
            && m.entity_type == x.entity_type && m.reference_kind == x.reference_kind,
        has_mention(mentions, m) <==> exists|i: int|
            0 <= i < mentions.len() && same_mention(#[trigger] mentions[i], m),
        distinct(mentions.push(m)) == if has_mention(distinct(mentions), m) {
            distinct(mentions)
        } else {
            distinct(mentions).push(m)
        },
        distinct(Seq::empty()) == Seq::<MentionView>::empty(),
        forall|t: Seq<char>, tier: SignalTier| #[trigger]
            extraction(t, tier) == distinct(all_mentions(t, tier)),
{
    assert(mentions.push(m).drop_last() =~= mentions);
}

/// The roles that are looked for.
pub proof fn the_roles_are_these(word: Seq<char>)
    ensures
        role_patterns().contains(word) <==> {
            ||| word == "my manager"@
            ||| word == "my boss"@
            ||| word == "my supervisor"@
            ||| word == "the project"@
            ||| word == "the project lead"@
            ||| word == "the lead"@
            ||| word == "the company"@
            ||| word == "the client"@
            ||| word == "the customer"@
            ||| word == "the team"@
            ||| word == "the team lead"@
        },
{
    let list = role_patterns();
    assert(list[0] == "my manager"@);
    assert(list[1] == "my boss"@);
    assert(list[2] == "my supervisor"@);
    assert(list[3] == "the project"@);
    assert(list[4] == "the project lead"@);
    assert(list[5] == "the lead"@);
    assert(list[6] == "the company"@);
    assert(list[7] == "the client"@);
    assert(list[8] == "the customer"@);
    assert(list[9] == "the team"@);
    assert(list[10] == "the team lead"@);
}

/// The pronouns that are looked for, and that are no part of a name.
pub proof fn the_pronouns_are_these(word: Seq<char>)
    ensures
        pronouns().contains(word) <==> {
            ||| word == "she"@
            ||| word == "her"@
            ||| word == "hers"@
            ||| word == "he"@
            ||| word == "him"@
            ||| word == "his"@
            ||| word == "they"@
            ||| word == "them"@
            ||| word == "their"@
            ||| word == "it"@
            ||| word == "its"@
        },
{
    let list = pronouns();
    assert(list[0] == "she"@);
    assert(list[1] == "her"@);
    assert(list[2] == "hers"@);
    assert(list[3] == "he"@);
    assert(list[4] == "him"@);
    assert(list[5] == "his"@);
    assert(list[6] == "they"@);
    assert(list[7] == "them"@);
    assert(list[8] == "their"@);
    assert(list[9] == "it"@);
    assert(list[10] == "its"@);
}

/// The words that end the name of an organization.
pub proof fn these_words_end_the_name_of_an_organization(word: Seq<char>)
    ensures
        organization_suffixes().contains(word) <==> {
            ||| word == "inc"@
            ||| word == "corp"@
            ||| word == "ltd"@
            ||| word == "llc"@
            ||| word == "gmbh"@
            ||| word == "ag"@
            ||| word == "sas"@
            ||| word == "plc"@
            ||| word == "co"@
        },
{
    let list = organization_suffixes();
    assert(list[0] == "inc"@);
    assert(list[1] == "corp"@);
    assert(list[2] == "ltd"@);
    assert(list[3] == "llc"@);
    assert(list[4] == "gmbh"@);
    assert(list[5] == "ag"@);
    assert(list[6] == "sas"@);
    assert(list[7] == "plc"@);
    assert(list[8] == "co"@);
}

/// The words that speak of a project.
pub proof fn these_words_speak_of_a_project(word: Seq<char>)
    ensures
        project_keywords().contains(word) <==> {
            ||| word == "project"@
            ||| word == "initiative"@
            ||| word == "program"@
            ||| word == "programme"@
        },
{
    let list = project_keywords();
    assert(list[0] == "project"@);
    assert(list[1] == "initiative"@);
    assert(list[2] == "program"@);
    assert(list[3] == "programme"@);
}

/// The words that are left out at the start of a name.
pub proof fn the_articles_are_these(word: Seq<char>)
    ensures
        articles().contains(word) <==> {
            ||| word == "the"@
            ||| word == "a"@
            ||| word == "an"@
            ||| word == "this"@
            ||| word == "that"@
            ||| word == "these"@
            ||| word == "those"@
            ||| word == "all"@
            ||| word == "every"@
            ||| word == "some"@
        },
{
    let list = articles();
    assert(list[0] == "the"@);
    assert(list[1] == "a"@);
    assert(list[2] == "an"@);
    assert(list[3] == "this"@);
    assert(list[4] == "that"@);
    assert(list[5] == "these"@);
    assert(list[6] == "those"@);
    assert(list[7] == "all"@);
    assert(list[8] == "every"@);
    assert(list[9] == "some"@);
}

/// The locations that are known by name.
pub proof fn the_known_locations_are_these(word: Seq<char>)
    ensures
        known_locations().contains(word) <==> {
            ||| word == "berlin"@
            ||| word == "paris"@
            ||| word == "london"@
            ||| word == "tokyo"@
            ||| word == "new york"@
            ||| word == "san francisco"@
            ||| word == "boston"@
            ||| word == "seattle"@
            ||| word == "austin"@
            ||| word == "toronto"@
            ||| word == "sydney"@
            ||| word == "singapore"@
            ||| word == "amsterdam"@
            ||| word == "munich"@
            ||| word == "zurich"@
            ||| word == "geneva"@
            ||| word == "dublin"@
            ||| word == "tel aviv"@
            ||| word == "bangalore"@
            ||| word == "mumbai"@
            ||| word == "delhi"@
            ||| word == "shanghai"@
            ||| word == "beijing"@
            ||| word == "hong kong"@
            ||| word == "seoul"@
            ||| word == "osaka"@
            ||| word == "kyoto"@
            ||| word == "vancouver"@
            ||| word == "montreal"@
            ||| word == "mexico city"@
            ||| word == "madrid"@
            ||| word == "barcelona"@
            ||| word == "rome"@
            ||| word == "milan"@
            ||| word == "lisbon"@
            ||| word == "vienna"@
            ||| word == "prague"@
            ||| word == "warsaw"@
            ||| word == "budapest"@
            ||| word == "athens"@
            ||| word == "helsinki"@
            ||| word == "oslo"@
            ||| word == "stockholm"@
            ||| word == "copenhagen"@
            ||| word == "reykjavik"@
            ||| word == "manchester"@
            ||| word == "edinburgh"@
            ||| word == "glasgow"@
            ||| word == "birmingham"@
            ||| word == "hamburg"@
            ||| word == "frankfurt"@
            ||| word == "cologne"@
            ||| word == "stuttgart"@
            ||| word == "tianjin"@
            ||| word == "guangzhou"@
            ||| word == "shenzhen"@
            ||| word == "chengdu"@
            ||| word == "hangzhou"@
        },
{
    let list = known_locations();
    assert(list[0] == "berlin"@);
    assert(list[1] == "paris"@);
    assert(list[2] == "london"@);
    assert(list[3] == "tokyo"@);
    assert(list[4] == "new york"@);
    assert(list[5] == "san francisco"@);
    assert(list[6] == "boston"@);
    assert(list[7] == "seattle"@);
    assert(list[8] == "austin"@);
    assert(list[9] == "toronto"@);
    assert(list[10] == "sydney"@);
    assert(list[11] == "singapore"@);
    assert(list[12] == "amsterdam"@);
    assert(list[13] == "munich"@);
    assert(list[14] == "zurich"@);
    assert(list[15] == "geneva"@);
    assert(list[16] == "dublin"@);
    assert(list[17] == "tel aviv"@);
    assert(list[18] == "bangalore"@);
    assert(list[19] == "mumbai"@);
    assert(list[20] == "delhi"@);
    assert(list[21] == "shanghai"@);
    assert(list[22] == "beijing"@);
    assert(list[23] == "hong kong"@);
    assert(list[24] == "seoul"@);
    assert(list[25] == "osaka"@);
    assert(list[26] == "kyoto"@);
    assert(list[27] == "vancouver"@);
    assert(list[28] == "montreal"@);
    assert(list[29] == "mexico city"@);
    assert(list[30] == "madrid"@);
    assert(list[31] == "barcelona"@);
    assert(list[32] == "rome"@);
    assert(list[33] == "milan"@);
    assert(list[34] == "lisbon"@);
    assert(list[35] == "vienna"@);
    assert(list[36] == "prague"@);
    assert(list[37] == "warsaw"@);
    assert(list[38] == "budapest"@);
    assert(list[39] == "athens"@);
    assert(list[40] == "helsinki"@);
    assert(list[41] == "oslo"@);
    assert(list[42] == "stockholm"@);
    assert(list[43] == "copenhagen"@);
    assert(list[44] == "reykjavik"@);
    assert(list[45] == "manchester"@);
    assert(list[46] == "edinburgh"@);
    assert(list[47] == "glasgow"@);
    assert(list[48] == "birmingham"@);
    assert(list[49] == "hamburg"@);
    assert(list[50] == "frankfurt"@);
    assert(list[51] == "cologne"@);
    assert(list[52] == "stuttgart"@);
    assert(list[53] == "beijing"@);
    assert(list[54] == "tianjin"@);
    assert(list[55] == "guangzhou"@);
    assert(list[56] == "shenzhen"@);
    assert(list[57] == "chengdu"@);
    assert(list[58] == "hangzhou"@);
}

/// A sentence ends where a full stop, an exclamation mark or a question mark
/// stands.
pub proof fn what_ends_a_sentence(text: Seq<char>, i: int)
    ensures
        ends_sentence(text, i) <==> 0 <= i < text.len() && (text[i] == '.' || text[i] == '!'
            || text[i] == '?'),
{
}

/// An email is an at sign with at least one character on either side, each of
/// which may stand there, taken as far as it goes to the left and to the right.
pub proof fn what_an_email_is(s: Seq<char>, e: EmailView)
    ensures
        is_email(s, e) <==> {
            &&& 0 <= e.start
            &&& e.start < e.at
            &&& e.at + 1 < e.end
            &&& e.end <= s.len()
            &&& s[e.at] == '@'
            &&& forall|k: int| e.start <= k < e.at ==> local_char(#[trigger] s[k])
            &&& forall|k: int| e.at < k < e.end ==> domain_char(#[trigger] s[k])
            &&& e.start > 0 ==> !local_char(s[e.start - 1])
            &&& e.end < s.len() ==> !domain_char(s[e.end])
        },
{
}

/// What is told of an email that was found: its two parts, and where it starts and
/// ends in the bytes of the text.
pub proof fn an_email_is_told_by_its_bytes(found: FoundEmail, s: Seq<char>, e: EmailView)
    ensures
        found.is_at(s, e) <==> {
            &&& found.start == encode_utf8(s.take(e.start)).len()
            &&& found.end == encode_utf8(s.take(e.end)).len()
            &&& found.local@ == s.subrange(e.start, e.at)
            &&& found.domain@ == s.subrange(e.at + 1, e.end)
        },
{
}

/// A name is among some mentions exactly where one of them has it.
pub proof fn a_name_is_among_the_mentions(mentions: Seq<MentionView>, name: Seq<char>)
    ensures
        has_canonical_name(mentions, name) <==> mentions.map_values(
            |m: MentionView| m.canonical_name,
        ).contains(name),
{
    let names = mentions.map_values(|m: MentionView| m.canonical_name);
    if has_canonical_name(mentions, name) {
        let i = choose|i: int|
            0 <= i < mentions.len() && (#[trigger] mentions[i]).canonical_name == name;
        assert(names[i] == name);
    }
    if names.contains(name) {
        let i = choose|i: int| 0 <= i < names.len() && names[i] == name;
        assert(mentions[i].canonical_name == name);
    }
}

/// What one of the rules finds is extracted, or one that is the same comes before
/// it; and what is extracted, a rule has found.
pub proof fn what_a_rule_finds_is_extracted(text: Seq<char>, tier: SignalTier, m: MentionView)
    ensures
        role_mentions(text, tier, role_patterns().len() as int).contains(m) || pronoun_mentions(
            text,
            runs(text, WordClass::Alphanumeric),
            tier,
        ).contains(m) || proper_nouns(text, tier).contains(m) || email_mentions(
            text,
            tier,
        ).contains(m) ==> has_mention(extraction(text, tier), m),
        extraction(text, tier).contains(m) ==> role_mentions(
            text,
            tier,
            role_patterns().len() as int,
        ).contains(m) || pronoun_mentions(
            text,
            runs(text, WordClass::Alphanumeric),
            tier,
        ).contains(m) || proper_nouns(text, tier).contains(m) || email_mentions(
            text,
            tier,
        ).contains(m),
{
    every_rule_counts(text, tier, m);
    an_extraction_is_complete(text, tier);
    let all = all_mentions(text, tier);
    if all.contains(m) {
        let i = choose|i: int| 0 <= i < all.len() && all[i] == m;
        assert(has_mention(extraction(text, tier), all[i]));
    }
}

impl ReferenceKind {
    /// The name of each kind of reference.
    pub proof fn each_kind_has_its_name(self)
        ensures
            self == ReferenceKind::Explicit ==> self.name() == "explicit"@,
            self == ReferenceKind::Role ==> self.name() == "role"@,
            self == ReferenceKind::Pronoun ==> self.name() == "pronoun"@,
    {
    }
}

} // verus!

//! Choosing the layers of memory that a question concerns.
use vstd::prelude::*;
use crate::memory::error::IngestResult;
use crate::memory::response::SourceLayer;
use crate::text::{any_occurs_in, contains_any, lowercase, lowercase_of, occurs_at, occurs_in};

verus! {

/// Chooses the layers that a question concerns.
pub trait QueryClassifier {
    /// A short name of the classifier.
    fn classifier_id(&self) -> &str;

    /// The layers that the question concerns. The list may be empty or hold a
    /// layer twice.
    fn classify(&self, query: &str) -> IngestResult<Vec<SourceLayer>>;
}

/// Keywords for each layer: a question that contains one concerns the layer.
#[derive(Debug, Clone)]
pub struct KeywordSets {
    pub episodic: Vec<String>,
    pub semantic: Vec<String>,
    pub procedural: Vec<String>,
    pub prospective: Vec<String>,
    pub preference: Vec<String>,
}

/// What a [`KeywordSets`] holds.
pub struct KeywordView {
    pub episodic: Seq<Seq<char>>,
    pub semantic: Seq<Seq<char>>,
    pub procedural: Seq<Seq<char>>,
    pub prospective: Seq<Seq<char>>,
    pub preference: Seq<Seq<char>>,
}

impl DeepView for KeywordSets {
    type V = KeywordView;

    open spec fn deep_view(&self) -> KeywordView {
        KeywordView {
            episodic: self.episodic.deep_view(),
            semantic: self.semantic.deep_view(),
            procedural: self.procedural.deep_view(),
            prospective: self.prospective.deep_view(),
            preference: self.preference.deep_view(),
        }
    }
}

/// The keywords that the classifier uses unless told otherwise.
pub open spec fn default_keywords() -> KeywordView {
    KeywordView {
        episodic: seq![
            "when"@,
            "what happened"@,
            "last time"@,
            "yesterday"@,
            "the meeting"@,
            "the call"@,
            "happened"@,
            "discussed"@,
            "spoke about"@,
            "what does"@,
        ],
        semantic: seq![
            "what is"@,
            "what do i know"@,
            "what do we know"@,
            "explain"@,
            "tell me about"@,
            "facts"@,
            "information about"@,
            "what does"@,
        ],
        procedural: seq![
            "how do i"@,
            "how to"@,
            "what tool"@,
            "the way to"@,
            "procedure"@,
            "workflow"@,
            "steps to"@,
        ],
        prospective: seq![
            "todo"@,
            "to-do"@,
            "remind me"@,
            "pending"@,
            "what's next"@,
            "whats next"@,
            "i need to"@,
            "deadline"@,
            "follow up"@,
            "follow-up"@,
        ],
        preference: seq![
            "prefer"@,
            "preference"@,
            "likes"@,
            "always uses"@,
            "format"@,
            "style"@,
            "taste"@,
            "convention"@,
        ],
    }
}

/// No keywords at all.
pub open spec fn no_keywords() -> KeywordView {
    KeywordView {
        episodic: Seq::empty(),
        semantic: Seq::empty(),
        procedural: Seq::empty(),
        prospective: Seq::empty(),
        preference: Seq::empty(),
    }
}

impl KeywordSets {
    /// The keywords that the classifier uses unless told otherwise.
    pub fn defaults() -> (r: Self)
        ensures
            r.deep_view() == default_keywords(),
    {
        let episodic = vec![
            "when".to_owned(),
            "what happened".to_owned(),
            "last time".to_owned(),
            "yesterday".to_owned(),
            "the meeting".to_owned(),
            "the call".to_owned(),
            "happened".to_owned(),
            "discussed".to_owned(),
            "spoke about".to_owned(),
            "what does".to_owned(),
        ];
        assert(episodic.deep_view() =~= default_keywords().episodic);
        let semantic = vec![
            "what is".to_owned(),
            "what do i know".to_owned(),
            "what do we know".to_owned(),
            "explain".to_owned(),
            "tell me about".to_owned(),
            "facts".to_owned(),
            "information about".to_owned(),
            "what does".to_owned(),
        ];
        assert(semantic.deep_view() =~= default_keywords().semantic);
        let procedural = vec![
            "how do i".to_owned(),
            "how to".to_owned(),
            "what tool".to_owned(),
            "the way to".to_owned(),
            "procedure".to_owned(),
            "workflow".to_owned(),
            "steps to".to_owned(),
        ];
        assert(procedural.deep_view() =~= default_keywords().procedural);
        let prospective = vec![
            "todo".to_owned(),
            "to-do".to_owned(),
            "remind me".to_owned(),
            "pending".to_owned(),
            "what's next".to_owned(),
            "whats next".to_owned(),
            "i need to".to_owned(),
            "deadline".to_owned(),
            "follow up".to_owned(),
            "follow-up".to_owned(),
        ];
        assert(prospective.deep_view() =~= default_keywords().prospective);
        let preference = vec![
            "prefer".to_owned(),
            "preference".to_owned(),
            "likes".to_owned(),
            "always uses".to_owned(),
            "format".to_owned(),
            "style".to_owned(),
            "taste".to_owned(),
            "convention".to_owned(),
        ];
        assert(preference.deep_view() =~= default_keywords().preference);
        KeywordSets { episodic, semantic, procedural, prospective, preference }
    }

    /// Keywords that match nothing.
    pub fn empty() -> (r: Self)
        ensures
            r.deep_view() == no_keywords(),
    {
        let r = KeywordSets {
            episodic: Vec::new(),
            semantic: Vec::new(),
            procedural: Vec::new(),
            prospective: Vec::new(),
            preference: Vec::new(),
        };
        assert(r.deep_view().episodic =~= no_keywords().episodic);
        assert(r.deep_view().semantic =~= no_keywords().semantic);
        assert(r.deep_view().procedural =~= no_keywords().procedural);
        assert(r.deep_view().prospective =~= no_keywords().prospective);
        assert(r.deep_view().preference =~= no_keywords().preference);
        r
    }
}

impl Default for KeywordSets {
    fn default() -> (r: Self)
        ensures
            r.deep_view() == default_keywords(),
    {
        KeywordSets::defaults()
    }
}

/// The default classifier: it looks for keywords in the question.
#[derive(Debug, Clone)]
pub struct HeuristicQueryClassifier {
    pub keywords: KeywordSets,
}

impl Default for HeuristicQueryClassifier {
    fn default() -> (r: Self)
        ensures
            r.keywords.deep_view() == default_keywords(),
    {
        HeuristicQueryClassifier::new()
    }
}

/// The layer, where it is chosen.
pub open spec fn layer_if(chosen: bool, layer: SourceLayer) -> Seq<SourceLayer> {
    if chosen {
        seq![layer]
    } else {
        Seq::empty()
    }
}

/// The layers whose keywords occur in a lowercase question.
pub open spec fn layers_for(kws: KeywordView, lower: Seq<char>) -> Seq<SourceLayer> {
    layer_if(any_occurs_in(lower, kws.episodic), SourceLayer::Episodic) + layer_if(
        any_occurs_in(lower, kws.semantic),
        SourceLayer::Semantic,
    ) + layer_if(any_occurs_in(lower, kws.procedural), SourceLayer::Procedural) + layer_if(
        any_occurs_in(lower, kws.prospective),
        SourceLayer::Prospective,
    ) + layer_if(any_occurs_in(lower, kws.preference), SourceLayer::Preference)
}

fn push_if(out: &mut Vec<SourceLayer>, chosen: bool, layer: SourceLayer)
    ensures
        final(out)@ == old(out)@ + layer_if(chosen, layer),
{
    if chosen {
        out.push(layer);
    }
}

impl HeuristicQueryClassifier {
    /// A classifier with the default keywords.
    pub fn new() -> (r: Self)
        ensures
            r.keywords.deep_view() == default_keywords(),
    {
        HeuristicQueryClassifier { keywords: KeywordSets::defaults() }
    }

    /// A classifier with keywords of its own.
    pub fn with_keywords(keywords: KeywordSets) -> (r: Self)
        ensures
            r.keywords == keywords,
    {
        HeuristicQueryClassifier { keywords }
    }

    /// The layers whose keywords occur in a question that was made lowercase.
    pub fn classify_lowercase(&self, lower: &str) -> (r: Vec<SourceLayer>)
        ensures
            r@ == layers_for(self.keywords.deep_view(), lower@),
    {
        let mut out: Vec<SourceLayer> = Vec::new();
        push_if(&mut out, contains_any(lower, &self.keywords.episodic), SourceLayer::Episodic);
        assert(out@ =~= layer_if(
            any_occurs_in(lower@, self.keywords.deep_view().episodic),
            SourceLayer::Episodic,
        ));
        push_if(&mut out, contains_any(lower, &self.keywords.semantic), SourceLayer::Semantic);
        push_if(&mut out, contains_any(lower, &self.keywords.procedural), SourceLayer::Procedural);
        push_if(&mut out, contains_any(lower, &self.keywords.prospective), SourceLayer::Prospective);
        push_if(&mut out, contains_any(lower, &self.keywords.preference), SourceLayer::Preference);
        out
    }
}

impl QueryClassifier for HeuristicQueryClassifier {
    fn classifier_id(&self) -> (r: &str)
        ensures
            r@ == "heuristic-v1"@,
    {
        "heuristic-v1"
    }

    fn classify(&self, query: &str) -> (r: IngestResult<Vec<SourceLayer>>)
        ensures
            r is Ok,
            r->Ok_0@ == layers_for(self.keywords.deep_view(), lowercase_of(query@)),
    {
        Ok(self.classify_lowercase(lowercase(query).as_str()))
    }
}

/// The classifier never names a layer twice.
pub proof fn no_layer_is_named_twice(kws: KeywordView, lower: Seq<char>)
    ensures
        layers_for(kws, lower).no_duplicates(),
{
}

/// Without keywords no layer is chosen.
pub proof fn no_keywords_choose_nothing(lower: Seq<char>)
    ensures
        layers_for(no_keywords(), lower) == Seq::<SourceLayer>::empty(),
{
    assert(layers_for(no_keywords(), lower) =~= Seq::<SourceLayer>::empty());
}

/// A question concerns every layer that has a keyword in it, and no other.
pub proof fn a_keyword_chooses_its_layer(kws: KeywordView, lower: Seq<char>)
    ensures
        layers_for(kws, lower).contains(SourceLayer::Episodic) <==> any_occurs_in(
            lower,
            kws.episodic,
        ),
        layers_for(kws, lower).contains(SourceLayer::Semantic) <==> any_occurs_in(
            lower,
            kws.semantic,
        ),
        layers_for(kws, lower).contains(SourceLayer::Procedural) <==> any_occurs_in(
            lower,
            kws.procedural,
        ),
        layers_for(kws, lower).contains(SourceLayer::Prospective) <==> any_occurs_in(
            lower,
            kws.prospective,
        ),
        layers_for(kws, lower).contains(SourceLayer::Preference) <==> any_occurs_in(
            lower,
            kws.preference,
        ),
{
    let a = layer_if(any_occurs_in(lower, kws.episodic), SourceLayer::Episodic);
    let b = layer_if(any_occurs_in(lower, kws.semantic), SourceLayer::Semantic);
    let c = layer_if(any_occurs_in(lower, kws.procedural), SourceLayer::Procedural);
    let d = layer_if(any_occurs_in(lower, kws.prospective), SourceLayer::Prospective);
    let e = layer_if(any_occurs_in(lower, kws.preference), SourceLayer::Preference);
    let all = layers_for(kws, lower);
    assert(all == a + b + c + d + e);
    if a.len() > 0 {
        assert(all[0] == SourceLayer::Episodic);
    }
    if b.len() > 0 {
        assert(all[a.len() as int] == SourceLayer::Semantic);
    }
    if c.len() > 0 {
        assert(all[(a + b).len() as int] == SourceLayer::Procedural);
    }
    if d.len() > 0 {
        assert(all[(a + b + c).len() as int] == SourceLayer::Prospective);
    }
    if e.len() > 0 {
        assert(all[(a + b + c + d).len() as int] == SourceLayer::Preference);
    }
}

/// A text with a character that `hay` does not have does not occur in it.
proof fn lemma_strange_character(hay: Seq<char>, needle: Seq<char>, k: int)
    requires
        0 <= k < needle.len(),
        forall|j: int| 0 <= j < hay.len() ==> #[trigger] hay[j] != needle[k],
    ensures
        !occurs_in(hay, needle),
{
    assert forall|i: int| !occurs_at(hay, needle, i) by {
        if occurs_at(hay, needle, i) {
            assert(hay.subrange(i, i + needle.len())[k] == hay[i + k]);
        }
    }
}

/// A text whose first two characters never follow one another in `hay` does not
/// occur in it.
proof fn lemma_strange_start(hay: Seq<char>, needle: Seq<char>)
    requires
        needle.len() >= 2,
        forall|j: int|
            0 <= j < hay.len() - 1 && #[trigger] hay[j] == needle[0] ==> hay[j + 1] != needle[1],
    ensures
        !occurs_in(hay, needle),
{
    assert forall|i: int| !occurs_at(hay, needle, i) by {
        if occurs_at(hay, needle, i) {
            assert(hay.subrange(i, i + needle.len())[0] == hay[i]);
            assert(hay.subrange(i, i + needle.len())[1] == hay[i + 1]);
        }
    }
}

/// The default keywords are permissive: a question about what someone prefers
/// concerns what happened and what is known, too.
pub proof fn a_question_of_taste_concerns_three_layers()
    ensures
        layers_for(default_keywords(), "what does sarah prefer?"@) == seq![
            SourceLayer::Episodic,
            SourceLayer::Semantic,
            SourceLayer::Preference,
        ],
{
    let hay = "what does sarah prefer?"@;
    let kws = default_keywords();
    reveal_strlit("what does sarah prefer?");
    reveal_strlit("what does");
    reveal_strlit("prefer");
    assert(hay.subrange(0, 9) =~= "what does"@);
    assert(occurs_at(hay, "what does"@, 0));
    assert(hay.subrange(16, 22) =~= "prefer"@);
    assert(occurs_at(hay, "prefer"@, 16));
    assert(any_occurs_in(hay, kws.episodic)) by {
        assert(kws.episodic[9] == "what does"@);
    }
    assert(any_occurs_in(hay, kws.semantic)) by {
        assert(kws.semantic[7] == "what does"@);
    }
    assert(any_occurs_in(hay, kws.preference)) by {
        assert(kws.preference[0] == "prefer"@);
    }
    assert(!any_occurs_in(hay, kws.procedural)) by {
        reveal_strlit("how do i");
        reveal_strlit("how to");
        reveal_strlit("what tool");
        reveal_strlit("the way to");
        reveal_strlit("procedure");
        reveal_strlit("workflow");
        reveal_strlit("steps to");
        lemma_strange_character(hay, "how do i"@, 7);
        lemma_strange_start(hay, "how to"@);
        lemma_strange_character(hay, "what tool"@, 8);
        lemma_strange_character(hay, "the way to"@, 6);
        lemma_strange_character(hay, "procedure"@, 3);
        lemma_strange_character(hay, "workflow"@, 3);
        lemma_strange_start(hay, "steps to"@);
    }
    assert(!any_occurs_in(hay, kws.prospective)) by {
        reveal_strlit("todo");
        reveal_strlit("to-do");
        reveal_strlit("remind me");
        reveal_strlit("pending");
        reveal_strlit("what's next");
        reveal_strlit("whats next");
        reveal_strlit("i need to");
        reveal_strlit("deadline");
        reveal_strlit("follow up");
        reveal_strlit("follow-up");
        lemma_strange_start(hay, "todo"@);
        lemma_strange_character(hay, "to-do"@, 2);
        lemma_strange_character(hay, "remind me"@, 2);
        lemma_strange_character(hay, "pending"@, 2);
        lemma_strange_character(hay, "what's next"@, 4);
        lemma_strange_character(hay, "whats next"@, 6);
        lemma_strange_character(hay, "i need to"@, 0);
        lemma_strange_character(hay, "deadline"@, 4);
        lemma_strange_character(hay, "follow up"@, 2);
        lemma_strange_character(hay, "follow-up"@, 2);
    }
    assert(layers_for(kws, hay) =~= seq![
        SourceLayer::Episodic,
        SourceLayer::Semantic,
        SourceLayer::Preference,
    ]);
}

// --- The layers of a recall --------------------------------------------------

/// `layers` with each layer at its first place only.
pub open spec fn distinct(layers: Seq<SourceLayer>) -> Seq<SourceLayer>
    decreases layers.len(),
{
    if layers.len() == 0 {
        layers
    } else {
        let front = distinct(layers.drop_last());
        if front.contains(layers.last()) {
            front
        } else {
            front.push(layers.last())
        }
    }
}

/// All five layers.
pub open spec fn all_layers() -> Seq<SourceLayer> {
    seq![
        SourceLayer::Episodic,
        SourceLayer::Semantic,
        SourceLayer::Procedural,
        SourceLayer::Prospective,
        SourceLayer::Preference,
    ]
}

/// The layers of a recall: those that the caller asks for; else those that the
/// classifier chose, each once; else all five.
pub open spec fn active(types: Seq<SourceLayer>, classified: Seq<SourceLayer>) -> Seq<SourceLayer> {
    if types.len() > 0 {
        types
    } else if classified.len() > 0 {
        distinct(classified)
    } else {
        all_layers()
    }
}

fn has_layer(layers: &Vec<SourceLayer>, layer: SourceLayer) -> (r: bool)
    ensures
        r == layers@.contains(layer),
{
    let mut i: usize = 0;
    while i < layers.len()
        invariant
            i <= layers@.len(),
            forall|k: int| 0 <= k < i ==> layers@[k] != layer,
        decreases layers@.len() - i,
    {
        if layers[i] == layer {
            return true;
        }
        i = i + 1;
    }
    false
}

/// The layers of a recall.
pub fn active_layers(types: &Vec<SourceLayer>, classified: &Vec<SourceLayer>) -> (r: Vec<
    SourceLayer,
>)
    ensures
        r@ == active(types@, classified@),
{
    let mut out: Vec<SourceLayer> = Vec::new();
    if types.len() > 0 {
        let mut i: usize = 0;
        while i < types.len()
            invariant
                i <= types@.len(),
                out@ == types@.take(i as int),
            decreases types@.len() - i,
        {
            out.push(types[i]);
            i = i + 1;
        }
        return out;
    }
    if classified.len() > 0 {
        let mut i: usize = 0;
        while i < classified.len()
            invariant
                i <= classified@.len(),
                out@ == distinct(classified@.take(i as int)),
            decreases classified@.len() - i,
        {
            assert(classified@.take(i + 1).drop_last() == classified@.take(i as int));
            if !has_layer(&out, classified[i]) {
                out.push(classified[i]);
            }
            i = i + 1;
        }
        assert(classified@.take(i as int) == classified@);
        return out;
    }
    vec![
        SourceLayer::Episodic,
        SourceLayer::Semantic,
        SourceLayer::Procedural,
        SourceLayer::Prospective,
        SourceLayer::Preference,
    ]
}

/// A recall always consults some layer, and the classifier's choice is
/// consulted without repetition.
pub proof fn some_layer_is_always_active(types: Seq<SourceLayer>, classified: Seq<SourceLayer>)
    ensures
        active(types, classified).len() > 0,
        types.len() == 0 ==> active(types, classified).no_duplicates(),
        types.len() == 0 && classified.len() > 0 ==> forall|l: SourceLayer| #[trigger]
            active(types, classified).contains(l) <==> classified.contains(l),
{
    lemma_distinct(classified);
    if classified.len() > 0 {
        assert(classified.contains(classified[0]));
        assert(distinct(classified).contains(classified[0]));
    }
}

proof fn lemma_distinct(layers: Seq<SourceLayer>)
    ensures
        distinct(layers).no_duplicates(),
        forall|l: SourceLayer| #[trigger] distinct(layers).contains(l) <==> layers.contains(l),
    decreases layers.len(),
{
    if layers.len() > 0 {
        let front = layers.drop_last();
        lemma_distinct(front);
        let inner = distinct(front);
        let all = distinct(layers);
        assert(layers == front.push(layers.last()));
        assert forall|l: SourceLayer| #[trigger] all.contains(l) <==> layers.contains(l) by {
            if layers.contains(l) {
                let k = choose|k: int| 0 <= k < layers.len() && layers[k] == l;
                if k < front.len() {
                    assert(front[k] == l);
                    assert(inner.contains(l));
                    let j = choose|j: int| 0 <= j < inner.len() && inner[j] == l;
                    assert(all[j] == l);
                } else if !inner.contains(l) {
                    assert(all[inner.len() as int] == l);
                }
            }
            if all.contains(l) {
                let j = choose|j: int| 0 <= j < all.len() && all[j] == l;
                if j < inner.len() {
                    assert(inner.contains(l));
                    let k = choose|k: int| 0 <= k < front.len() && front[k] == l;
                    assert(layers[k] == l);
                } else {
                    assert(layers[layers.len() - 1] == l);
                }
            }
        }
    }
}

/// What the default classifier goes by: a question concerns a layer exactly where
/// one of these words or phrases occurs in it.
pub proof fn the_default_keywords_decide(lower: Seq<char>)
    ensures
        layers_for(default_keywords(), lower).contains(SourceLayer::Episodic) <==> {
            ||| occurs_in(lower, "when"@)
            ||| occurs_in(lower, "what happened"@)
            ||| occurs_in(lower, "last time"@)
            ||| occurs_in(lower, "yesterday"@)
            ||| occurs_in(lower, "the meeting"@)
            ||| occurs_in(lower, "the call"@)
            ||| occurs_in(lower, "happened"@)
            ||| occurs_in(lower, "discussed"@)
            ||| occurs_in(lower, "spoke about"@)
            ||| occurs_in(lower, "what does"@)
        },
        layers_for(default_keywords(), lower).contains(SourceLayer::Semantic) <==> {
            ||| occurs_in(lower, "what is"@)
            ||| occurs_in(lower, "what do i know"@)
            ||| occurs_in(lower, "what do we know"@)
            ||| occurs_in(lower, "explain"@)
            ||| occurs_in(lower, "tell me about"@)
            ||| occurs_in(lower, "facts"@)
            ||| occurs_in(lower, "information about"@)
            ||| occurs_in(lower, "what does"@)
        },
        layers_for(default_keywords(), lower).contains(SourceLayer::Procedural) <==> {
            ||| occurs_in(lower, "how do i"@)
            ||| occurs_in(lower, "how to"@)
            ||| occurs_in(lower, "what tool"@)
            ||| occurs_in(lower, "the way to"@)
            ||| occurs_in(lower, "procedure"@)
            ||| occurs_in(lower, "workflow"@)
            ||| occurs_in(lower, "steps to"@)
        },
        layers_for(default_keywords(), lower).contains(SourceLayer::Prospective) <==> {
            ||| occurs_in(lower, "todo"@)
            ||| occurs_in(lower, "to-do"@)
            ||| occurs_in(lower, "remind me"@)
            ||| occurs_in(lower, "pending"@)
            ||| occurs_in(lower, "what's next"@)
            ||| occurs_in(lower, "whats next"@)
            ||| occurs_in(lower, "i need to"@)
            ||| occurs_in(lower, "deadline"@)
            ||| occurs_in(lower, "follow up"@)
            ||| occurs_in(lower, "follow-up"@)
        },
        layers_for(default_keywords(), lower).contains(SourceLayer::Preference) <==> {
            ||| occurs_in(lower, "prefer"@)
            ||| occurs_in(lower, "preference"@)
            ||| occurs_in(lower, "likes"@)
            ||| occurs_in(lower, "always uses"@)
            ||| occurs_in(lower, "format"@)
            ||| occurs_in(lower, "style"@)
            ||| occurs_in(lower, "taste"@)
            ||| occurs_in(lower, "convention"@)
        },
{
    let kws = default_keywords();
    a_keyword_chooses_its_layer(kws, lower);
    let words = kws.episodic;
    assert(words[0] == "when"@);
    assert(words[1] == "what happened"@);
    assert(words[2] == "last time"@);
    assert(words[3] == "yesterday"@);
    assert(words[4] == "the meeting"@);
    assert(words[5] == "the call"@);
    assert(words[6] == "happened"@);
    assert(words[7] == "discussed"@);
    assert(words[8] == "spoke about"@);
    assert(words[9] == "what does"@);
    let words = kws.semantic;
    assert(words[0] == "what is"@);
    assert(words[1] == "what do i know"@);
    assert(words[2] == "what do we know"@);
    assert(words[3] == "explain"@);
    assert(words[4] == "tell me about"@);
    assert(words[5] == "facts"@);
    assert(words[6] == "information about"@);
    assert(words[7] == "what does"@);
    let words = kws.procedural;
    assert(words[0] == "how do i"@);
    assert(words[1] == "how to"@);
    assert(words[2] == "what tool"@);
    assert(words[3] == "the way to"@);
    assert(words[4] == "procedure"@);
    assert(words[5] == "workflow"@);
    assert(words[6] == "steps to"@);
    let words = kws.prospective;
    assert(words[0] == "todo"@);
    assert(words[1] == "to-do"@);
    assert(words[2] == "remind me"@);
    assert(words[3] == "pending"@);
    assert(words[4] == "what's next"@);
    assert(words[5] == "whats next"@);
    assert(words[6] == "i need to"@);
    assert(words[7] == "deadline"@);
    assert(words[8] == "follow up"@);
    assert(words[9] == "follow-up"@);
    let words = kws.preference;
    assert(words[0] == "prefer"@);
    assert(words[1] == "preference"@);
    assert(words[2] == "likes"@);
    assert(words[3] == "always uses"@);
    assert(words[4] == "format"@);
    assert(words[5] == "style"@);
    assert(words[6] == "taste"@);
    assert(words[7] == "convention"@);
}

/// The layers come in a fixed order: what happened, what is known, how things are
/// done, what is to be done, and what is liked.
pub proof fn the_layers_come_in_order(kws: KeywordView, lower: Seq<char>)
    ensures
        layers_for(kws, lower) == all_layers().filter(
            |l: SourceLayer| layers_for(kws, lower).contains(l),
        ),
{
    reveal_with_fuel(Seq::filter, 6);
    a_keyword_chooses_its_layer(kws, lower);
    let keep = |l: SourceLayer| layers_for(kws, lower).contains(l);
    let all = all_layers();
    let four = all.drop_last();
    let three = four.drop_last();
    let two = three.drop_last();
    let one = two.drop_last();
    assert(one.drop_last() =~= Seq::<SourceLayer>::empty());
    assert(all.last() == SourceLayer::Preference && four.last() == SourceLayer::Prospective
        && three.last() == SourceLayer::Procedural && two.last() == SourceLayer::Semantic
        && one.last() == SourceLayer::Episodic);
    assert(one.drop_last().filter(keep) =~= Seq::<SourceLayer>::empty());
    assert(one.filter(keep) =~= layer_if(keep(SourceLayer::Episodic), SourceLayer::Episodic));
    assert(two.filter(keep) =~= one.filter(keep) + layer_if(
        keep(SourceLayer::Semantic),
        SourceLayer::Semantic,
    ));
    assert(three.filter(keep) =~= two.filter(keep) + layer_if(
        keep(SourceLayer::Procedural),
        SourceLayer::Procedural,
    ));
    assert(four.filter(keep) =~= three.filter(keep) + layer_if(
        keep(SourceLayer::Prospective),
        SourceLayer::Prospective,
    ));
    assert(all.filter(keep) =~= four.filter(keep) + layer_if(
        keep(SourceLayer::Preference),
        SourceLayer::Preference,
    ));
}

/// The layers of a recall: those that the caller names, as named; else each that
/// the question was classified as, once; else all five.
pub proof fn the_layers_of_a_recall(types: Seq<SourceLayer>, classified: Seq<SourceLayer>)
    ensures
        types.len() > 0 ==> active(types, classified) == types,
        types.len() == 0 && classified.len() > 0 ==> {
            &&& active(types, classified).no_duplicates()
            &&& forall|l: SourceLayer| #[trigger]
                active(types, classified).contains(l) <==> classified.contains(l)
        },
        types.len() == 0 && classified.len() > 0 && classified.no_duplicates() ==> active(
            types,
            classified,
        ) == classified,
        types.len() == 0 && classified.len() == 0 ==> {
            &&& active(types, classified).no_duplicates()
            &&& active(types, classified).len() == 5
        },
{
    lemma_distinct(classified);
    if classified.no_duplicates() {
        lemma_distinct_keeps(classified);
    }
}

/// One more layer that the question is classified as comes last, unless it was
/// there before.
pub proof fn a_further_layer_comes_last(classified: Seq<SourceLayer>, layer: SourceLayer)
    requires
        classified.len() > 0,
    ensures
        active(Seq::empty(), classified.push(layer)) == if classified.contains(layer) {
            active(Seq::empty(), classified)
        } else {
            active(Seq::empty(), classified).push(layer)
        },
        active(Seq::empty(), seq![layer]) == seq![layer],
{
    lemma_distinct(classified);
    assert(classified.push(layer).drop_last() =~= classified);
    lemma_distinct_keeps(seq![layer]);
}

proof fn lemma_distinct_keeps(layers: Seq<SourceLayer>)
    requires
        layers.no_duplicates(),
    ensures
        distinct(layers) == layers,
    decreases layers.len(),
{
    if layers.len() > 0 {
        let front = layers.drop_last();
        lemma_distinct_keeps(front);
        if front.contains(layers.last()) {
            let i = choose|i: int| 0 <= i < front.len() && front[i] == layers.last();
            assert(layers[i] == layers[layers.len() - 1]);
        }
        assert(front.push(layers.last()) =~= layers);
    }
}

} // verus!

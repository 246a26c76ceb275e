//! Recall: what each layer contributes, and the text that is made of it.
use vstd::prelude::*;
use crate::memory::hits::{
    comparable, merge_and_rerank, merged, proper, same_record, score_ge, score_ge_transitive,
    score_of, scores_are_bounded, the_ranking_is_complete, the_ranking_is_sound, HitView, RawHit,
    Ratio,
};
use crate::memory::request::{lies_in, RecallRequest, TimeRange};
use crate::memory::response::{RecallResponse, ResponseView, SourceLayer, SourceRecord, SourceView};
use crate::storage::record::{
    id_text, Concept, ConceptView, Episode, EpisodeView, Preference, PreferenceView, Procedure,
    ProcedureView, RecordId, RecordIdView, Task, TaskView, Weight,
};
use crate::text::{
    any_occurs_in, chars_of, contains_any, decimal, decimal_of, join, joined, lowercase,
    lowercase_all, lowercase_each, lowercase_keeps_places, lowercase_of, occurs_in, text_of,
};
use crate::time::Timestamp;

verus! {

// --- Excerpts and ids --------------------------------------------------------

/// At most `max` characters of a text; an ellipsis stands for the rest.
pub open spec fn excerpt_of(s: Seq<char>, max: int) -> Seq<char> {
    if s.len() <= max {
        s
    } else {
        s.take(max).push('\u{2026}')
    }
}

/// At most `max_chars` characters of a text; an ellipsis stands for the rest.
pub fn truncate_excerpt(s: &str, max_chars: usize) -> (r: String)
    ensures
        r@ == excerpt_of(s@, max_chars as int),
{
    let chars = chars_of(s);
    if chars.len() <= max_chars {
        return s.to_owned();
    }
    let mut out = text_of(&chars, 0, max_chars);
    assert(out@ == s@.take(max_chars as int));
    out.push('\u{2026}');
    out
}

/// The text of a record's id; a record without one shows its table only.
pub open spec fn source_id(id: Option<RecordIdView>, table: Seq<char>) -> Seq<char> {
    match id {
        Some(id) => id_text(id),
        None => table + ":?"@,
    }
}

/// The text of a record's id; a record without one shows its table only.
pub fn record_id_to_string(id: &Option<RecordId>, fallback_table: &str) -> (r: String)
    ensures
        r@ == source_id(id.deep_view(), fallback_table@),
{
    match id {
        Some(id) => id.text(),
        None => fallback_table.to_owned().concat(":?"),
    }
}

/// The first time that is set, or `now`.
pub open spec fn first_of(a: Option<Timestamp>, b: Option<Timestamp>, now: Timestamp) -> Timestamp {
    match a {
        Some(t) => t,
        None => match b {
            Some(t) => t,
            None => now,
        },
    }
}

fn first_set(a: Option<Timestamp>, b: Option<Timestamp>, now: Timestamp) -> (r: Timestamp)
    ensures
        r == first_of(a, b, now),
{
    match a {
        Some(t) => t,
        None => match b {
            Some(t) => t,
            None => now,
        },
    }
}

// --- Hits of single records --------------------------------------------------

/// One half.
pub open spec fn half() -> Weight {
    Weight { millionths: 500_000 }
}

/// The hit of an episode.
pub open spec fn episode_hit(e: EpisodeView, relevance: Ratio) -> HitView {
    HitView {
        layer: SourceLayer::Episodic,
        record_id: source_id(e.id, "episode"@),
        excerpt: excerpt_of(e.content, 240),
        relevance,
        importance: e.importance,
        valid_time: e.valid_time_start,
    }
}

/// The relevance of the concept at `rank` among the `k` nearest: from one down
/// to a half.
pub open spec fn rank_relevance(rank: int, k: u32) -> Ratio {
    if k == 0 {
        Ratio { num: 0, den: 1 }
    } else if rank >= 2 * k {
        Ratio { num: 0, den: (2 * k) as u64 }
    } else {
        Ratio { num: (2 * k - rank) as u64, den: (2 * k) as u64 }
    }
}

/// The hit of a concept.
pub open spec fn concept_hit(c: ConceptView, rank: int, k: u32) -> HitView {
    HitView {
        layer: SourceLayer::Semantic,
        record_id: source_id(c.id, "concept"@),
        excerpt: excerpt_of(c.content, 240),
        relevance: rank_relevance(rank, k),
        importance: c.confidence,
        valid_time: c.valid_time_start,
    }
}

/// The relevance of a procedure: full where a trigger fits the question, else
/// falling with its rank from seven tenths.
pub open spec fn trigger_relevance(triggered: bool, rank: int) -> Ratio {
    if triggered {
        Ratio { num: 1, den: 1 }
    } else if rank >= 14 {
        Ratio { num: 0, den: 20 }
    } else {
        Ratio { num: (14 - rank) as u64, den: 20 }
    }
}

/// The hit of a procedure.
pub open spec fn procedure_hit(p: ProcedureView, relevance: Ratio, now: Timestamp) -> HitView {
    HitView {
        layer: SourceLayer::Procedural,
        record_id: source_id(p.id, "procedure"@),
        excerpt: excerpt_of(p.content, 240),
        relevance,
        importance: half(),
        valid_time: first_of(p.last_used, p.created_at, now),
    }
}

/// The hit of a task.
pub open spec fn task_hit(t: TaskView, now: Timestamp) -> HitView {
    HitView {
        layer: SourceLayer::Prospective,
        record_id: source_id(t.id, "task"@),
        excerpt: excerpt_of(t.content, 240),
        relevance: Ratio { num: 1, den: 1 },
        importance: half(),
        valid_time: first_of(t.created_at, None, now),
    }
}

/// The hit of a preference.
pub open spec fn preference_hit(p: PreferenceView, now: Timestamp) -> HitView {
    HitView {
        layer: SourceLayer::Preference,
        record_id: source_id(p.id, "preference"@),
        excerpt: "["@ + p.category + "] "@ + p.direction.name() + ": "@ + p.content,
        relevance: Ratio { num: 1, den: 1 },
        importance: p.strength,
        valid_time: first_of(p.last_reinforced, p.created_at, now),
    }
}

impl RawHit {
    /// The hit of an episode.
    pub fn from_episode(e: &Episode, relevance: Ratio) -> (r: RawHit)
        ensures
            r.deep_view() == episode_hit(e.deep_view(), relevance),
    {
        RawHit {
            layer: SourceLayer::Episodic,
            record_id: record_id_to_string(&e.id, "episode"),
            excerpt: truncate_excerpt(e.content.as_str(), 240),
            relevance,
            importance: e.importance,
            valid_time: e.valid_time_start,
        }
    }

    /// The hit of the concept at `rank` among the `k` nearest.
    pub fn from_concept(c: &Concept, rank: usize, k: u32) -> (r: RawHit)
        ensures
            r.deep_view() == concept_hit(c.deep_view(), rank as int, k),
            r.relevance.wf(),
    {
        let twice: u64 = 2 * k as u64;
        let relevance = if k == 0 {
            Ratio { num: 0, den: 1 }
        } else if rank as u64 >= twice {
            Ratio { num: 0, den: twice }
        } else {
            Ratio { num: twice - rank as u64, den: twice }
        };
        RawHit {
            layer: SourceLayer::Semantic,
            record_id: record_id_to_string(&c.id, "concept"),
            excerpt: truncate_excerpt(c.content.as_str(), 240),
            relevance,
            importance: c.confidence,
            valid_time: c.valid_time_start,
        }
    }

    /// The hit of a procedure.
    pub fn from_procedure(p: &Procedure, relevance: Ratio, now: Timestamp) -> (r: RawHit)
        ensures
            r.deep_view() == procedure_hit(p.deep_view(), relevance, now),
    {
        RawHit {
            layer: SourceLayer::Procedural,
            record_id: record_id_to_string(&p.id, "procedure"),
            excerpt: truncate_excerpt(p.content.as_str(), 240),
            relevance,
            importance: Weight { millionths: 500_000 },
            valid_time: first_set(p.last_used, p.created_at, now),
        }
    }

    /// The hit of a task.
    pub fn from_task(t: &Task, now: Timestamp) -> (r: RawHit)
        ensures
            r.deep_view() == task_hit(t.deep_view(), now),
            r.relevance.wf(),
    {
        RawHit {
            layer: SourceLayer::Prospective,
            record_id: record_id_to_string(&t.id, "task"),
            excerpt: truncate_excerpt(t.content.as_str(), 240),
            relevance: Ratio { num: 1, den: 1 },
            importance: Weight { millionths: 500_000 },
            valid_time: first_set(t.created_at, None, now),
        }
    }

    /// The hit of a preference.
    pub fn from_preference(p: &Preference, now: Timestamp) -> (r: RawHit)
        ensures
            r.deep_view() == preference_hit(p.deep_view(), now),
            r.relevance.wf(),
    {
        RawHit {
            layer: SourceLayer::Preference,
            record_id: record_id_to_string(&p.id, "preference"),
            excerpt: "[".to_owned().concat(p.category.as_str()).concat("] ").concat(
                p.direction.as_str(),
            ).concat(": ").concat(p.content.as_str()),
            relevance: Ratio { num: 1, den: 1 },
            importance: p.strength,
            valid_time: first_set(p.last_reinforced, p.created_at, now),
        }
    }
}

// --- Hits of a layer ---------------------------------------------------------

/// The rows that the store returned for a layer.
#[derive(Debug)]
pub enum LayerRows {
    Episodes(Vec<Episode>),
    Concepts(Vec<Concept>),
    Procedures(Vec<Procedure>),
    Tasks(Vec<Task>),
    Preferences(Vec<Preference>),
}

/// What a [`LayerRows`] holds.
pub enum RowsView {
    Episodes(Seq<EpisodeView>),
    Concepts(Seq<ConceptView>),
    Procedures(Seq<ProcedureView>),
    Tasks(Seq<TaskView>),
    Preferences(Seq<PreferenceView>),
}

impl DeepView for LayerRows {
    type V = RowsView;

    open spec fn deep_view(&self) -> RowsView {
        match self {
            LayerRows::Episodes(v) => RowsView::Episodes(v.deep_view()),
            LayerRows::Concepts(v) => RowsView::Concepts(v.deep_view()),
            LayerRows::Procedures(v) => RowsView::Procedures(v.deep_view()),
            LayerRows::Tasks(v) => RowsView::Tasks(v.deep_view()),
            LayerRows::Preferences(v) => RowsView::Preferences(v.deep_view()),
        }
    }
}

/// How many episodes to fetch for a result of `max_results`: more than asked
/// for, so that the filters have something to choose from.
pub open spec fn window(max_results: u32) -> int {
    if max_results * 4 < 20 {
        20
    } else {
        max_results * 4
    }
}

/// How many episodes to fetch for a result of `max_results`.
pub fn episodic_window(max_results: u32) -> (r: u32)
    requires
        max_results * 4 <= u32::MAX,
    ensures
        r == window(max_results),
{
    if max_results * 4 < 20 {
        20
    } else {
        max_results * 4
    }
}

/// A record of that valid time passes the filter of a recall.
pub open spec fn in_time(
    range: Option<TimeRange>,
    start: Timestamp,
    end: Option<Timestamp>,
) -> bool {
    match range {
        Some(r) => lies_in(r, start, end),
        None => true,
    }
}

fn passes_time(range: &Option<TimeRange>, start: Timestamp, end: Option<Timestamp>) -> (r: bool)
    ensures
        r == in_time(*range, start, end),
{
    match range {
        Some(r) => r.admits(start, end),
        None => true,
    }
}

/// The episode passes the filters: it mentions one of the names, where names
/// are given, and lies in the time range, where one is given.
pub open spec fn episode_passes(
    e: EpisodeView,
    names: Seq<Seq<char>>,
    range: Option<TimeRange>,
) -> bool {
    &&& names.len() == 0 || any_occurs_in(lowercase_of(e.content), lowercase_all(names))
    &&& in_time(range, e.valid_time_start, e.valid_time_end)
}

/// The hits of the episodes that pass the filters, in their order.
pub open spec fn episodes_passing(
    rows: Seq<EpisodeView>,
    names: Seq<Seq<char>>,
    range: Option<TimeRange>,
) -> Seq<HitView>
    decreases rows.len(),
{
    if rows.len() == 0 {
        Seq::empty()
    } else {
        let front = episodes_passing(rows.drop_last(), names, range);
        if episode_passes(rows.last(), names, range) {
            front.push(episode_hit(rows.last(), Ratio { num: 1, den: 2 }))
        } else {
            front
        }
    }
}

/// The hits of the episodic layer: the best of those that pass the filters.
pub open spec fn episodic(
    rows: Seq<EpisodeView>,
    names: Seq<Seq<char>>,
    range: Option<TimeRange>,
    max: u32,
    now: Timestamp,
) -> Seq<HitView> {
    merged(episodes_passing(rows, names, range), max, now)
}

/// The hits of the episodic layer.
pub fn episodic_hits(
    rows: &Vec<Episode>,
    names: &Vec<String>,
    range: &Option<TimeRange>,
    max_results: u32,
    now: Timestamp,
) -> (r: Vec<RawHit>)
    ensures
        r.deep_view() == episodic(rows.deep_view(), names.deep_view(), *range, max_results, now),
        proper(r.deep_view()),
{
    let needles = lowercase_each(names);
    assert(needles.deep_view().len() == names.deep_view().len());
    let mut out: Vec<RawHit> = Vec::new();
    let mut i: usize = 0;
    assert(out.deep_view() =~= episodes_passing(
        rows.deep_view().take(0),
        names.deep_view(),
        *range,
    ));
    while i < rows.len()
        invariant
            i <= rows@.len(),
            needles.deep_view() == lowercase_all(names.deep_view()),
            needles@.len() == names@.len(),
            out.deep_view() == episodes_passing(
                rows.deep_view().take(i as int),
                names.deep_view(),
                *range,
            ),
            proper(out.deep_view()),
        decreases rows@.len() - i,
    {
        let ghost all = rows.deep_view();
        assert(all.take(i + 1).drop_last() == all.take(i as int));
        assert(all.take(i + 1).last() == rows@[i as int].deep_view());
        let named = needles.len() == 0 || contains_any(
            lowercase(rows[i].content.as_str()).as_str(),
            &needles,
        );
        if named && passes_time(range, rows[i].valid_time_start, rows[i].valid_time_end) {
            let hit = RawHit::from_episode(&rows[i], Ratio { num: 1, den: 2 });
            let ghost before = out.deep_view();
            let ghost h = hit.deep_view();
            out.push(hit);
            assert(out.deep_view() =~= before.push(h));
        }
        i = i + 1;
    }
    assert(rows.deep_view().take(i as int) == rows.deep_view());
    merge_and_rerank(out, max_results, now)
}

/// The hits of the semantic layer: the concepts in the time range, ranked in
/// the order of their distance.
pub open spec fn semantic(rows: Seq<ConceptView>, range: Option<TimeRange>, k: u32) -> Seq<HitView>
    decreases rows.len(),
{
    if rows.len() == 0 {
        Seq::empty()
    } else {
        let front = semantic(rows.drop_last(), range, k);
        let c = rows.last();
        if in_time(range, c.valid_time_start, c.valid_time_end) {
            front.push(concept_hit(c, front.len() as int, k))
        } else {
            front
        }
    }
}

/// The hits of the semantic layer.
pub fn semantic_hits(rows: &Vec<Concept>, range: &Option<TimeRange>, k: u32) -> (r: Vec<RawHit>)
    ensures
        r.deep_view() == semantic(rows.deep_view(), *range, k),
        proper(r.deep_view()),
{
    let mut out: Vec<RawHit> = Vec::new();
    let mut i: usize = 0;
    assert(out.deep_view() =~= semantic(rows.deep_view().take(0), *range, k));
    while i < rows.len()
        invariant
            i <= rows@.len(),
            out.deep_view() == semantic(rows.deep_view().take(i as int), *range, k),
            proper(out.deep_view()),
        decreases rows@.len() - i,
    {
        let ghost all = rows.deep_view();
        assert(all.take(i + 1).drop_last() == all.take(i as int));
        assert(all.take(i + 1).last() == rows@[i as int].deep_view());
        if passes_time(range, rows[i].valid_time_start, rows[i].valid_time_end) {
            let hit = RawHit::from_concept(&rows[i], out.len(), k);
            let ghost before = out.deep_view();
            let ghost h = hit.deep_view();
            assert(h == concept_hit(all[i as int], before.len() as int, k));
            out.push(hit);
            assert(out.deep_view() =~= before.push(h));
        }
        i = i + 1;
    }
    assert(rows.deep_view().take(i as int) == rows.deep_view());
    out
}

/// The procedure has a trigger that occurs in the lowercase question.
pub open spec fn triggered(p: ProcedureView, lower: Seq<char>) -> bool {
    any_occurs_in(lower, lowercase_all(p.trigger_patterns))
}

/// The hits of the procedural layer.
pub open spec fn procedural(
    rows: Seq<ProcedureView>,
    lower: Seq<char>,
    now: Timestamp,
) -> Seq<HitView> {
    Seq::new(
        rows.len(),
        |i: int| procedure_hit(rows[i], trigger_relevance(triggered(rows[i], lower), i), now),
    )
}

/// The hits of the procedural layer for a question that was made lowercase.
pub fn procedural_hits(rows: &Vec<Procedure>, lower: &str, now: Timestamp) -> (r: Vec<RawHit>)
    ensures
        r.deep_view() == procedural(rows.deep_view(), lower@, now),
        proper(r.deep_view()),
{
    let mut out: Vec<RawHit> = Vec::new();
    let mut i: usize = 0;
    while i < rows.len()
        invariant
            i <= rows@.len(),
            out@.len() == i,
            forall|k: int|
                0 <= k < i ==> (#[trigger] out@[k]).deep_view() == procedural(
                    rows.deep_view(),
                    lower@,
                    now,
                )[k],
            forall|k: int| 0 <= k < i ==> (#[trigger] out@[k]).relevance.wf(),
        decreases rows@.len() - i,
    {
        let patterns = lowercase_each(&rows[i].trigger_patterns);
        let relevance = if contains_any(lower, &patterns) {
            Ratio { num: 1, den: 1 }
        } else if i >= 14 {
            Ratio { num: 0, den: 20 }
        } else {
            Ratio { num: 14 - i as u64, den: 20 }
        };
        assert(rows.deep_view()[i as int] == rows@[i as int].deep_view());
        out.push(RawHit::from_procedure(&rows[i], relevance, now));
        i = i + 1;
    }
    assert(out.deep_view() =~= procedural(rows.deep_view(), lower@, now));
    out
}

/// The hits of the prospective layer: the first pending tasks.
pub open spec fn prospective(rows: Seq<TaskView>, max: u32, now: Timestamp) -> Seq<HitView> {
    crate::memory::hits::top(rows, max as int).map_values(|t: TaskView| task_hit(t, now))
}

/// The hits of the prospective layer.
pub fn prospective_hits(rows: &Vec<Task>, max_results: u32, now: Timestamp) -> (r: Vec<RawHit>)
    ensures
        r.deep_view() == prospective(rows.deep_view(), max_results, now),
        proper(r.deep_view()),
{
    let mut out: Vec<RawHit> = Vec::new();
    let mut i: usize = 0;
    while i < rows.len() && i < max_results as usize
        invariant
            i <= rows@.len(),
            i <= max_results,
            out@.len() == i,
            forall|k: int|
                0 <= k < i ==> (#[trigger] out@[k]).deep_view() == task_hit(
                    rows@[k].deep_view(),
                    now,
                ),
            forall|k: int| 0 <= k < i ==> (#[trigger] out@[k]).relevance.wf(),
        decreases rows@.len() - i,
    {
        out.push(RawHit::from_task(&rows[i], now));
        i = i + 1;
    }
    assert(out.deep_view() =~= prospective(rows.deep_view(), max_results, now));
    out
}

/// The hits of the preference layer.
pub open spec fn preferential(rows: Seq<PreferenceView>, now: Timestamp) -> Seq<HitView> {
    rows.map_values(|p: PreferenceView| preference_hit(p, now))
}

/// The hits of the preference layer.
pub fn preference_hits(rows: &Vec<Preference>, now: Timestamp) -> (r: Vec<RawHit>)
    ensures
        r.deep_view() == preferential(rows.deep_view(), now),
        proper(r.deep_view()),
{
    let mut out: Vec<RawHit> = Vec::new();
    let mut i: usize = 0;
    while i < rows.len()
        invariant
            i <= rows@.len(),
            out@.len() == i,
            forall|k: int|
                0 <= k < i ==> (#[trigger] out@[k]).deep_view() == preference_hit(
                    rows@[k].deep_view(),
                    now,
                ),
            forall|k: int| 0 <= k < i ==> (#[trigger] out@[k]).relevance.wf(),
        decreases rows@.len() - i,
    {
        out.push(RawHit::from_preference(&rows[i], now));
        i = i + 1;
    }
    assert(out.deep_view() =~= preferential(rows.deep_view(), now));
    out
}

/// The hits of one layer for a request whose question in lowercase is `lower`.
pub open spec fn layer_hits_of(
    req: RecallRequest,
    lower: Seq<char>,
    rows: RowsView,
    now: Timestamp,
) -> Seq<HitView> {
    match rows {
        RowsView::Episodes(v) => episodic(
            v,
            req.entities.deep_view(),
            req.time_range,
            req.max_results,
            now,
        ),
        RowsView::Concepts(v) => semantic(v, req.time_range, req.max_results),
        RowsView::Procedures(v) => procedural(v, lower, now),
        RowsView::Tasks(v) => prospective(v, req.max_results, now),
        RowsView::Preferences(v) => preferential(v, now),
    }
}

/// The hits of one layer for a request whose question in lowercase is `lower`.
pub fn retrieve_layer(req: &RecallRequest, lower: &str, rows: &LayerRows, now: Timestamp) -> (r:
    Vec<RawHit>)
    ensures
        r.deep_view() == layer_hits_of(*req, lower@, rows.deep_view(), now),
        proper(r.deep_view()),
{
    match rows {
        LayerRows::Episodes(v) => episodic_hits(
            v,
            &req.entities,
            &req.time_range,
            req.max_results,
            now,
        ),
        LayerRows::Concepts(v) => semantic_hits(v, &req.time_range, req.max_results),
        LayerRows::Procedures(v) => procedural_hits(v, lower, now),
        LayerRows::Tasks(v) => prospective_hits(v, req.max_results, now),
        LayerRows::Preferences(v) => preference_hits(v, now),
    }
}

// --- The answer --------------------------------------------------------------

/// The ending of a noun for `n` things.
pub open spec fn plural(n: int) -> Seq<char> {
    if n == 1 {
        ""@
    } else {
        "s"@
    }
}

/// The first line of the context.
pub open spec fn header(hits: int, layers: int) -> Seq<char> {
    "Memory context ("@ + decimal_of(hits as nat) + " hit"@ + plural(hits) + " across "@
        + decimal_of(layers as nat) + " layer"@ + plural(layers) + "):"@
}

/// The line of a hit.
pub open spec fn hit_line(hit: HitView) -> Seq<char> {
    hit.layer.name() + ": "@ + if hit.excerpt.len() == 0 {
        "<no content>"@
    } else {
        hit.excerpt
    }
}

/// The lines of the context.
pub open spec fn context_lines(hits: Seq<HitView>, layers: int) -> Seq<Seq<char>> {
    seq![header(hits.len() as int, layers)] + hits.map_values(|h: HitView| hit_line(h))
}

/// The text for the agent's prompt; empty where there is no hit.
pub open spec fn context_of(hits: Seq<HitView>, layers: int) -> Seq<char> {
    if hits.len() == 0 {
        Seq::empty()
    } else {
        joined(context_lines(hits, layers), "\n"@)
    }
}

/// The contributing record of a hit.
pub open spec fn source_of(hit: HitView, now: Timestamp) -> SourceView {
    SourceView {
        layer: hit.layer,
        record_id: hit.record_id,
        excerpt: hit.excerpt,
        score: score_of(hit, now),
        valid_time: hit.valid_time,
    }
}

/// The answer for merged hits.
pub open spec fn answer(hits: Seq<HitView>, layers: Seq<SourceLayer>, now: Timestamp) -> ResponseView {
    ResponseView {
        context: context_of(hits, layers.len() as int),
        sources: hits.map_values(|h: HitView| source_of(h, now)),
        query_types: layers,
    }
}

fn plural_ending(n: usize) -> (r: &'static str)
    ensures
        r@ == plural(n as int),
{
    if n == 1 {
        ""
    } else {
        "s"
    }
}

/// The answer for merged hits: a prompt-ready text and the contributing
/// records.
pub fn assemble_context_slice(
    merged: Vec<RawHit>,
    active_layers: Vec<SourceLayer>,
    now: Timestamp,
) -> (r: RecallResponse)
    requires
        proper(merged.deep_view()),
    ensures
        r.deep_view() == answer(merged.deep_view(), active_layers@, now),
{
    let ghost hits = merged.deep_view();
    let n: usize = merged.len();
    if n == 0 {
        let r = RecallResponse {
            context: String::new(),
            sources: Vec::new(),
            query_types: active_layers,
        };
        assert(r.deep_view().sources =~= answer(hits, active_layers@, now).sources);
        return r;
    }
    let layers: usize = active_layers.len();
    let mut lines: Vec<String> = Vec::new();
    lines.push(
        "Memory context (".to_owned().concat(decimal(n as u128).as_str()).concat(" hit").concat(
            plural_ending(n),
        ).concat(" across ").concat(decimal(layers as u128).as_str()).concat(" layer").concat(
            plural_ending(layers),
        ).concat("):"),
    );
    let mut sources: Vec<SourceRecord> = Vec::new();
    let mut i: usize = 0;
    while i < n
        invariant
            i <= n == merged@.len(),
            hits == merged.deep_view(),
            proper(hits),
            lines@.len() == i + 1,
            lines@[0]@ == header(n as int, layers as int),
            forall|k: int| 0 <= k < i ==> (#[trigger] lines@[k + 1])@ == hit_line(hits[k]),
            sources@.len() == i,
            forall|k: int|
                0 <= k < i ==> (#[trigger] sources@[k]).deep_view() == source_of(hits[k], now),
        decreases n - i,
    {
        let hit = &merged[i];
        assert(hits[i as int] == hit.deep_view());
        let start = hit.layer.as_str().to_owned().concat(": ");
        let line = if chars_of(hit.excerpt.as_str()).len() == 0 {
            start.concat("<no content>")
        } else {
            start.concat(hit.excerpt.as_str())
        };
        let ghost old_lines = lines@;
        lines.push(line);
        assert forall|k: int| 0 <= k < i + 1 implies (#[trigger] lines@[k + 1])@ == hit_line(
            hits[k],
        ) by {
            if k < i {
                assert(lines@[k + 1] == old_lines[k + 1]);
            }
        }
        sources.push(
            SourceRecord {
                layer: hit.layer,
                record_id: hit.record_id.clone(),
                excerpt: hit.excerpt.clone(),
                score: hit.score(now),
                valid_time: hit.valid_time,
            },
        );
        i = i + 1;
    }
    proof {
        let want = context_lines(hits, layers as int);
        assert(lines.deep_view().len() == want.len());
        assert forall|k: int| 0 <= k < want.len() implies #[trigger] lines.deep_view()[k]
            == want[k] by {
            if k > 0 {
                assert(lines@[(k - 1) + 1]@ == hit_line(hits[k - 1]));
            }
        }
        assert(lines.deep_view() =~= want);
        assert(sources.deep_view() =~= hits.map_values(|h: HitView| source_of(h, now)));
    }
    let context = join(&lines, "\n");
    RecallResponse { context, sources, query_types: active_layers }
}

/// The hits of all layers, one layer after the other.
pub open spec fn all_hits(
    req: RecallRequest,
    lower: Seq<char>,
    rows: Seq<RowsView>,
    now: Timestamp,
) -> Seq<HitView>
    decreases rows.len(),
{
    if rows.len() == 0 {
        Seq::empty()
    } else {
        all_hits(req, lower, rows.drop_last(), now) + layer_hits_of(req, lower, rows.last(), now)
    }
}

/// The answer to a recall whose question in lowercase is `lower`, from the rows
/// of each consulted layer.
pub open spec fn recall_answer(
    req: RecallRequest,
    lower: Seq<char>,
    layers: Seq<SourceLayer>,
    rows: Seq<RowsView>,
    now: Timestamp,
) -> ResponseView {
    answer(merged(all_hits(req, lower, rows, now), req.max_results, now), layers, now)
}

/// The answer to a recall, from the rows that the store returned for each of
/// the consulted layers and the question in lowercase.
pub fn recall_from_lowercase(
    req: &RecallRequest,
    lower: &str,
    layers: Vec<SourceLayer>,
    rows: &Vec<LayerRows>,
    now: Timestamp,
) -> (r: RecallResponse)
    ensures
        r.deep_view() == recall_answer(*req, lower@, layers@, rows.deep_view(), now),
{
    let mut hits: Vec<RawHit> = Vec::new();
    let mut i: usize = 0;
    assert(hits.deep_view() =~= all_hits(*req, lower@, rows.deep_view().take(0), now));
    while i < rows.len()
        invariant
            i <= rows@.len(),
            hits.deep_view() == all_hits(*req, lower@, rows.deep_view().take(i as int), now),
            proper(hits.deep_view()),
        decreases rows@.len() - i,
    {
        let ghost all = rows.deep_view();
        assert(all.take(i + 1).drop_last() == all.take(i as int));
        assert(all.take(i + 1).last() == rows@[i as int].deep_view());
        let mut more = retrieve_layer(req, lower, &rows[i], now);
        let ghost before = hits.deep_view();
        let ghost extra = more.deep_view();
        hits.append(&mut more);
        assert(hits.deep_view() =~= before + extra);
        assert(proper(hits.deep_view())) by {
            assert forall|k: int| 0 <= k < hits.deep_view().len() implies (#[trigger] hits.deep_view()[k]).relevance.wf() by {
                if k < before.len() {
                    assert(hits.deep_view()[k] == before[k]);
                } else {
                    assert(hits.deep_view()[k] == extra[k - before.len()]);
                }
            }
        }
        i = i + 1;
    }
    assert(rows.deep_view().take(i as int) == rows.deep_view());
    let best = merge_and_rerank(hits, req.max_results, now);
    assemble_context_slice(best, layers, now)
}

/// The answer to a recall, from the rows that the store returned for each of
/// the consulted layers.
pub fn recall_from_rows(
    req: &RecallRequest,
    layers: Vec<SourceLayer>,
    rows: &Vec<LayerRows>,
    now: Timestamp,
) -> (r: RecallResponse)
    ensures
        r.deep_view() == recall_answer(
            *req,
            lowercase_of(req.query@),
            layers@,
            rows.deep_view(),
            now,
        ),
{
    recall_from_lowercase(req, lowercase(req.query.as_str()).as_str(), layers, rows, now)
}

// --- What holds of every answer ----------------------------------------------

proof fn lemma_episodes_proper(
    rows: Seq<EpisodeView>,
    names: Seq<Seq<char>>,
    range: Option<TimeRange>,
)
    ensures
        proper(episodes_passing(rows, names, range)),
    decreases rows.len(),
{
    if rows.len() > 0 {
        lemma_episodes_proper(rows.drop_last(), names, range);
    }
}

proof fn lemma_semantic_proper(rows: Seq<ConceptView>, range: Option<TimeRange>, k: u32)
    ensures
        proper(semantic(rows, range, k)),
        semantic(rows, range, k).len() <= rows.len(),
    decreases rows.len(),
{
    if rows.len() > 0 {
        lemma_semantic_proper(rows.drop_last(), range, k);
    }
}

proof fn lemma_layer_proper(req: RecallRequest, lower: Seq<char>, rows: RowsView, now: Timestamp)
    ensures
        proper(layer_hits_of(req, lower, rows, now)),
{
    match rows {
        RowsView::Episodes(v) => {
            let passing = episodes_passing(v, req.entities.deep_view(), req.time_range);
            lemma_episodes_proper(v, req.entities.deep_view(), req.time_range);
            the_ranking_is_sound(passing, req.max_results, now);
            let m = merged(passing, req.max_results, now);
            assert forall|i: int| 0 <= i < m.len() implies (#[trigger] m[i]).relevance.wf() by {
                assert(passing.contains(m[i]));
                let k = choose|k: int| 0 <= k < passing.len() && passing[k] == m[i];
                assert(passing[k].relevance.wf());
            }
        },
        RowsView::Concepts(v) => {
            lemma_semantic_proper(v, req.time_range, req.max_results);
        },
        RowsView::Procedures(v) => {},
        RowsView::Tasks(v) => {},
        RowsView::Preferences(v) => {},
    }
}

proof fn lemma_all_proper(req: RecallRequest, lower: Seq<char>, rows: Seq<RowsView>, now: Timestamp)
    ensures
        proper(all_hits(req, lower, rows, now)),
    decreases rows.len(),
{
    if rows.len() > 0 {
        lemma_all_proper(req, lower, rows.drop_last(), now);
        lemma_layer_proper(req, lower, rows.last(), now);
        let front = all_hits(req, lower, rows.drop_last(), now);
        let last = layer_hits_of(req, lower, rows.last(), now);
        let all = all_hits(req, lower, rows, now);
        assert forall|i: int| 0 <= i < all.len() implies (#[trigger] all[i]).relevance.wf() by {
            if i < front.len() {
                assert(all[i] == front[i]);
            } else {
                assert(all[i] == last[i - front.len()]);
            }
        }
    }
}

/// An answer names the consulted layers, has at most as many sources as were
/// asked for, and orders them best first; its text is empty exactly where it
/// has no source.
pub proof fn an_answer_is_ordered_and_capped(
    req: RecallRequest,
    lower: Seq<char>,
    layers: Seq<SourceLayer>,
    rows: Seq<RowsView>,
    now: Timestamp,
)
    ensures
        ({
            let r = recall_answer(req, lower, layers, rows, now);
            &&& r.query_types == layers
            &&& r.sources.len() <= req.max_results
            &&& forall|i: int, j: int|
                0 <= i <= j < r.sources.len() ==> score_ge(
                    (#[trigger] r.sources[i]).score,
                    (#[trigger] r.sources[j]).score,
                )
            &&& r.context.len() == 0 <==> r.sources.len() == 0
        }),
{
    lemma_all_proper(req, lower, rows, now);
    let hits = all_hits(req, lower, rows, now);
    the_ranking_is_sound(hits, req.max_results, now);
    let m = merged(hits, req.max_results, now);
    let r = recall_answer(req, lower, layers, rows, now);
    assert forall|i: int, j: int| 0 <= i <= j < r.sources.len() implies score_ge(
        (#[trigger] r.sources[i]).score,
        (#[trigger] r.sources[j]).score,
    ) by {
        assert(score_ge(score_of(m[i], now), score_of(m[j], now)));
    }
    if m.len() > 0 {
        let lines = context_lines(m, layers.len() as int);
        lemma_joined_covers_first(lines, "\n"@);
        reveal_strlit("Memory context (");
        assert(lines[0] == header(m.len() as int, layers.len() as int));
    }
}

proof fn lemma_joined_covers_first(parts: Seq<Seq<char>>, sep: Seq<char>)
    requires
        parts.len() > 0,
    ensures
        joined(parts, sep).len() >= parts[0].len(),
    decreases parts.len(),
{
    if parts.len() > 1 {
        lemma_joined_covers_first(parts.drop_last(), sep);
    }
}

/// No single layer contributes more hits than were asked for, where the store
/// keeps to the limits that it was given.
pub proof fn no_layer_exceeds_the_cap(
    req: RecallRequest,
    lower: Seq<char>,
    rows: RowsView,
    now: Timestamp,
)
    requires
        match rows {
            RowsView::Concepts(v) => v.len() <= req.max_results,
            RowsView::Procedures(v) => v.len() <= req.max_results,
            RowsView::Preferences(v) => v.len() <= req.max_results,
            _ => true,
        },
    ensures
        layer_hits_of(req, lower, rows, now).len() <= req.max_results,
{
    match rows {
        RowsView::Episodes(v) => {
            lemma_episodes_proper(v, req.entities.deep_view(), req.time_range);
            the_ranking_is_sound(
                episodes_passing(v, req.entities.deep_view(), req.time_range),
                req.max_results,
                now,
            );
        },
        RowsView::Concepts(v) => {
            lemma_semantic_proper(v, req.time_range, req.max_results);
        },
        _ => {},
    }
}

/// `hit` comes from an episode that passes the filters.
pub open spec fn from_passing(
    hit: HitView,
    rows: Seq<EpisodeView>,
    names: Seq<Seq<char>>,
    range: Option<TimeRange>,
) -> bool {
    exists|k: int|
        0 <= k < rows.len() && episode_passes(#[trigger] rows[k], names, range) && hit
            == episode_hit(rows[k], Ratio { num: 1, den: 2 })
}

proof fn lemma_from_passing(
    rows: Seq<EpisodeView>,
    names: Seq<Seq<char>>,
    range: Option<TimeRange>,
    i: int,
)
    requires
        0 <= i < episodes_passing(rows, names, range).len(),
    ensures
        from_passing(episodes_passing(rows, names, range)[i], rows, names, range),
    decreases rows.len(),
{
    let front = rows.drop_last();
    let passing = episodes_passing(front, names, range);
    if i < passing.len() {
        lemma_from_passing(front, names, range, i);
        let hit = passing[i];
        let k = choose|k: int|
            0 <= k < front.len() && episode_passes(#[trigger] front[k], names, range) && hit
                == episode_hit(front[k], Ratio { num: 1, den: 2 });
        assert(rows[k] == front[k]);
        assert(episode_passes(rows[k], names, range));
    } else {
        assert(rows[rows.len() - 1] == rows.last());
        assert(episode_passes(rows[rows.len() - 1], names, range));
    }
}

/// Every episodic hit comes from an episode that mentions one of the names that
/// were asked for, if any, and lies in the time range, if one was given.
pub proof fn episodic_hits_pass_the_filters(
    rows: Seq<EpisodeView>,
    names: Seq<Seq<char>>,
    range: Option<TimeRange>,
    max: u32,
    now: Timestamp,
    i: int,
)
    requires
        0 <= i < episodic(rows, names, range, max, now).len(),
    ensures
        from_passing(episodic(rows, names, range, max, now)[i], rows, names, range),
{
    let passing = episodes_passing(rows, names, range);
    lemma_episodes_proper(rows, names, range);
    the_ranking_is_sound(passing, max, now);
    let hit = episodic(rows, names, range, max, now)[i];
    assert(passing.contains(hit));
    let k = choose|k: int| 0 <= k < passing.len() && passing[k] == hit;
    lemma_from_passing(rows, names, range, k);
}

/// Every semantic hit comes from a concept that lies in the time range, if one
/// was given.
pub proof fn semantic_hits_lie_in_the_range(
    rows: Seq<ConceptView>,
    range: Option<TimeRange>,
    k: u32,
    i: int,
)
    requires
        0 <= i < semantic(rows, range, k).len(),
    ensures
        exists|c: int|
            0 <= c < rows.len() && in_time(
                range,
                (#[trigger] rows[c]).valid_time_start,
                rows[c].valid_time_end,
            ) && semantic(rows, range, k)[i] == concept_hit(rows[c], i, k),
    decreases rows.len(),
{
    let front = rows.drop_last();
    let inner = semantic(front, range, k);
    if i < inner.len() {
        semantic_hits_lie_in_the_range(front, range, k, i);
        let c = choose|c: int|
            0 <= c < front.len() && in_time(
                range,
                (#[trigger] front[c]).valid_time_start,
                front[c].valid_time_end,
            ) && inner[i] == concept_hit(front[c], i, k);
        assert(rows[c] == front[c]);
    } else {
        assert(rows[rows.len() - 1] == rows.last());
    }
}

/// The layer that rows come from.
pub open spec fn layer_of_rows(rows: RowsView) -> SourceLayer {
    match rows {
        RowsView::Episodes(_) => SourceLayer::Episodic,
        RowsView::Concepts(_) => SourceLayer::Semantic,
        RowsView::Procedures(_) => SourceLayer::Procedural,
        RowsView::Tasks(_) => SourceLayer::Prospective,
        RowsView::Preferences(_) => SourceLayer::Preference,
    }
}

proof fn lemma_layer_of_hit(
    req: RecallRequest,
    lower: Seq<char>,
    rows: RowsView,
    now: Timestamp,
    i: int,
)
    requires
        0 <= i < layer_hits_of(req, lower, rows, now).len(),
    ensures
        layer_hits_of(req, lower, rows, now)[i].layer == layer_of_rows(rows),
{
    match rows {
        RowsView::Episodes(v) => {
            episodic_hits_pass_the_filters(
                v,
                req.entities.deep_view(),
                req.time_range,
                req.max_results,
                now,
                i,
            );
        },
        RowsView::Concepts(v) => {
            semantic_hits_lie_in_the_range(v, req.time_range, req.max_results, i);
        },
        RowsView::Procedures(v) => {},
        RowsView::Tasks(v) => {},
        RowsView::Preferences(v) => {},
    }
}

proof fn lemma_layers_of_hits(
    req: RecallRequest,
    lower: Seq<char>,
    layers: Seq<SourceLayer>,
    rows: Seq<RowsView>,
    now: Timestamp,
    i: int,
)
    requires
        rows.len() == layers.len(),
        forall|k: int| 0 <= k < rows.len() ==> layer_of_rows(#[trigger] rows[k]) == layers[k],
        0 <= i < all_hits(req, lower, rows, now).len(),
    ensures
        layers.contains(all_hits(req, lower, rows, now)[i].layer),
    decreases rows.len(),
{
    if rows.len() > 0 {
        let before = rows.drop_last();
        let front = all_hits(req, lower, before, now);
        if i < front.len() {
            let fewer = layers.drop_last();
            assert forall|k: int| 0 <= k < before.len() implies layer_of_rows(
                #[trigger] before[k],
            ) == fewer[k] by {
                assert(before[k] == rows[k]);
            }
            lemma_layers_of_hits(req, lower, fewer, before, now, i);
            let k = choose|k: int| 0 <= k < fewer.len() && fewer[k] == front[i].layer;
            assert(layers[k] == front[i].layer);
        } else {
            lemma_layer_of_hit(req, lower, rows.last(), now, i - front.len());
            assert(layer_of_rows(rows[rows.len() - 1]) == layers[layers.len() - 1]);
        }
    }
}

/// Every source of an answer is of a layer that was consulted, where the rows
/// were fetched from the consulted layers, one by one.
pub proof fn every_source_is_of_a_consulted_layer(
    req: RecallRequest,
    lower: Seq<char>,
    layers: Seq<SourceLayer>,
    rows: Seq<RowsView>,
    now: Timestamp,
    i: int,
)
    requires
        rows.len() == layers.len(),
        forall|k: int| 0 <= k < rows.len() ==> layer_of_rows(#[trigger] rows[k]) == layers[k],
        0 <= i < recall_answer(req, lower, layers, rows, now).sources.len(),
    ensures
        ({
            let r = recall_answer(req, lower, layers, rows, now);
            r.query_types.contains(r.sources[i].layer)
        }),
{
    lemma_all_proper(req, lower, rows, now);
    let hits = all_hits(req, lower, rows, now);
    the_ranking_is_sound(hits, req.max_results, now);
    let m = merged(hits, req.max_results, now);
    assert(hits.contains(m[i]));
    let k = choose|k: int| 0 <= k < hits.len() && hits[k] == m[i];
    lemma_layers_of_hits(req, lower, layers, rows, now, k);
}

// --- What is found -----------------------------------------------------------

/// An episode is wanted: it lies in the time range, where one is given, and
/// mentions, in whatever case, one of the names, where names are given.
pub open spec fn wanted(e: EpisodeView, names: Seq<Seq<char>>, range: Option<TimeRange>) -> bool {
    &&& names.len() > 0 ==> exists|j: int|
        0 <= j < names.len() && occurs_in(lowercase_of(e.content), lowercase_of(#[trigger] names[j]))
    &&& range matches Some(r) ==> {
        &&& r.start.instant() <= e.valid_time_start.instant()
        &&& e.valid_time_start.instant() < r.end.instant()
        &&& e.valid_time_end matches Some(end) ==> end.instant() <= r.end.instant()
    }
}

proof fn lemma_wanted(e: EpisodeView, names: Seq<Seq<char>>, range: Option<TimeRange>)
    ensures
        episode_passes(e, names, range) <==> wanted(e, names, range),
{
    let lower = lowercase_of(e.content);
    let needles = lowercase_all(names);
    lowercase_keeps_places(names);
    if names.len() > 0 {
        if any_occurs_in(lower, needles) {
            let j = choose|j: int| 0 <= j < needles.len() && occurs_in(lower, #[trigger] needles[j]);
            assert(occurs_in(lower, lowercase_of(names[j])));
        }
        if exists|j: int|
            0 <= j < names.len() && occurs_in(lower, lowercase_of(#[trigger] names[j])) {
            let j = choose|j: int|
                0 <= j < names.len() && occurs_in(lower, lowercase_of(#[trigger] names[j]));
            assert(occurs_in(lower, needles[j]));
        }
    }
}

/// The episodes that are wanted, and no others, have their hits among those
/// before merging, in the order of the rows, each with a relevance of one half.
pub proof fn the_wanted_episodes_are_found(
    rows: Seq<EpisodeView>,
    names: Seq<Seq<char>>,
    range: Option<TimeRange>,
)
    ensures
        episodes_passing(rows, names, range) == rows.filter(
            |e: EpisodeView| wanted(e, names, range),
        ).map_values(|e: EpisodeView| episode_hit(e, Ratio { num: 1, den: 2 })),
        forall|k: int|
            0 <= k < rows.len() && wanted(#[trigger] rows[k], names, range) ==> episodes_passing(
                rows,
                names,
                range,
            ).contains(episode_hit(rows[k], Ratio { num: 1, den: 2 })),
    decreases rows.len(),
{
    reveal(Seq::filter);
    let keep = |e: EpisodeView| wanted(e, names, range);
    let show = |e: EpisodeView| episode_hit(e, Ratio { num: 1, den: 2 });
    let found = episodes_passing(rows, names, range);
    if rows.len() == 0 {
        assert(found =~= rows.filter(keep).map_values(show));
    } else {
        let front = rows.drop_last();
        let inner = episodes_passing(front, names, range);
        the_wanted_episodes_are_found(front, names, range);
        lemma_wanted(rows.last(), names, range);
        if keep(rows.last()) {
            assert(rows.filter(keep) == front.filter(keep).push(rows.last()));
            assert(rows.filter(keep).map_values(show) =~= front.filter(keep).map_values(show).push(
                show(rows.last()),
            ));
        }
        assert forall|k: int|
            0 <= k < rows.len() && wanted(#[trigger] rows[k], names, range) implies found.contains(
            show(rows[k]),
        ) by {
            if k < front.len() {
                assert(front[k] == rows[k]);
                assert(inner.contains(show(front[k])));
                let i = choose|i: int| 0 <= i < inner.len() && inner[i] == show(rows[k]);
                assert(found[i] == inner[i]);
            } else {
                assert(found[inner.len() as int] == show(rows[k]));
            }
        }
    }
}

/// The concepts that lie in the time range, where one is given, and no others are
/// hits, ranked in the order of the rows.
pub proof fn the_concepts_in_the_range_are_found(
    rows: Seq<ConceptView>,
    range: Option<TimeRange>,
    k: u32,
)
    ensures
        ({
            let kept = rows.filter(
                |c: ConceptView|
                    range matches Some(r) ==> {
                        &&& r.start.instant() <= c.valid_time_start.instant()
                        &&& c.valid_time_start.instant() < r.end.instant()
                        &&& c.valid_time_end matches Some(end) ==> end.instant() <= r.end.instant()
                    },
            );
            &&& semantic(rows, range, k).len() == kept.len()
            &&& forall|i: int|
                0 <= i < kept.len() ==> #[trigger] semantic(rows, range, k)[i] == concept_hit(
                    kept[i],
                    i,
                    k,
                )
        }),
    decreases rows.len(),
{
    reveal(Seq::filter);
    let keep = |c: ConceptView|
        range matches Some(r) ==> {
            &&& r.start.instant() <= c.valid_time_start.instant()
            &&& c.valid_time_start.instant() < r.end.instant()
            &&& c.valid_time_end matches Some(end) ==> end.instant() <= r.end.instant()
        };
    if rows.len() > 0 {
        let front = rows.drop_last();
        the_concepts_in_the_range_are_found(front, range, k);
        let c = rows.last();
        assert(in_time(range, c.valid_time_start, c.valid_time_end) <==> keep(c));
        let inner = semantic(front, range, k);
        let all = semantic(rows, range, k);
        let kept = rows.filter(keep);
        if keep(c) {
            assert(kept == front.filter(keep).push(c));
            assert forall|i: int| 0 <= i < kept.len() implies #[trigger] all[i] == concept_hit(
                kept[i],
                i,
                k,
            ) by {
                if i < inner.len() {
                    assert(all[i] == inner[i]);
                }
            }
        } else {
            assert(kept == front.filter(keep));
        }
    }
}

/// Every procedure is a hit. One with a trigger that occurs in the question, in
/// whatever case, is of full relevance; any other is the less relevant the later
/// it comes, by a twentieth each, from seven tenths down to nothing.
pub proof fn every_procedure_is_found(rows: Seq<ProcedureView>, lower: Seq<char>, now: Timestamp)
    ensures
        procedural(rows, lower, now).len() == rows.len(),
        forall|i: int|
            0 <= i < rows.len() ==> {
                let hit = #[trigger] procedural(rows, lower, now)[i];
                let fits = exists|j: int|
                    0 <= j < rows[i].trigger_patterns.len() && occurs_in(
                        lower,
                        lowercase_of(#[trigger] rows[i].trigger_patterns[j]),
                    );
                &&& hit == procedure_hit(rows[i], hit.relevance, now)
                &&& fits ==> hit.relevance == (Ratio { num: 1, den: 1 })
                &&& !fits ==> hit.relevance.den == 20
                &&& !fits && i < 14 ==> hit.relevance.num == 14 - i
                &&& !fits && i >= 14 ==> hit.relevance.num == 0
            },
{
    assert forall|i: int| 0 <= i < rows.len() implies ({
        let hit = #[trigger] procedural(rows, lower, now)[i];
        let fits = exists|j: int|
            0 <= j < rows[i].trigger_patterns.len() && occurs_in(
                lower,
                lowercase_of(#[trigger] rows[i].trigger_patterns[j]),
            );
        &&& hit == procedure_hit(rows[i], hit.relevance, now)
        &&& fits ==> hit.relevance == (Ratio { num: 1, den: 1 })
        &&& !fits ==> hit.relevance.den == 20
        &&& !fits && i < 14 ==> hit.relevance.num == 14 - i
        &&& !fits && i >= 14 ==> hit.relevance.num == 0
    }) by {
        let patterns = rows[i].trigger_patterns;
        let needles = lowercase_all(patterns);
        lowercase_keeps_places(patterns);
        if any_occurs_in(lower, needles) {
            let j = choose|j: int| 0 <= j < needles.len() && occurs_in(lower, #[trigger] needles[j]);
            assert(occurs_in(lower, lowercase_of(patterns[j])));
        }
        if exists|j: int|
            0 <= j < patterns.len() && occurs_in(lower, lowercase_of(#[trigger] patterns[j])) {
            let j = choose|j: int|
                0 <= j < patterns.len() && occurs_in(lower, lowercase_of(#[trigger] patterns[j]));
            assert(occurs_in(lower, needles[j]));
        }
    }
}

/// The first tasks are hits, as many as are asked for; every preference is a hit.
pub proof fn the_first_tasks_and_all_preferences_are_found(
    tasks: Seq<TaskView>,
    preferences: Seq<PreferenceView>,
    max: u32,
    now: Timestamp,
)
    ensures
        prospective(tasks, max, now).len() == if max < tasks.len() {
            max as nat
        } else {
            tasks.len()
        },
        forall|i: int|
            0 <= i < prospective(tasks, max, now).len() ==> #[trigger] prospective(
                tasks,
                max,
                now,
            )[i] == task_hit(tasks[i], now),
        preferential(preferences, now).len() == preferences.len(),
        forall|i: int|
            0 <= i < preferences.len() ==> #[trigger] preferential(preferences, now)[i]
                == preference_hit(preferences[i], now),
{
}

/// The text of a source: the record's own, where it has at most 240 characters;
/// else its first 240 and an ellipsis.
pub proof fn an_excerpt_is_the_start_of_the_text(s: Seq<char>, max: int)
    requires
        0 <= max,
    ensures
        s.len() <= max ==> excerpt_of(s, max) == s,
        s.len() > max ==> excerpt_of(s, max).len() == max + 1 && excerpt_of(s, max).drop_last()
            == s.take(max) && excerpt_of(s, max).last() == '\u{2026}',
{
    if s.len() > max {
        assert(excerpt_of(s, max).drop_last() =~= s.take(max));
    }
}

/// What a hit tells of an episode and of a concept: the record's id, the start of
/// its text, how important it is, and since when it is valid. The nearest concept
/// is of full relevance, and each further one of a `2k`-th less.
pub proof fn a_hit_tells_of_its_record(
    e: EpisodeView,
    c: ConceptView,
    relevance: Ratio,
    rank: int,
    k: u32,
)
    requires
        0 <= rank,
    ensures
        episode_hit(e, relevance) == (HitView {
            layer: SourceLayer::Episodic,
            record_id: match e.id {
                Some(id) => id_text(id),
                None => "episode"@ + ":?"@,
            },
            excerpt: excerpt_of(e.content, 240),
            relevance,
            importance: e.importance,
            valid_time: e.valid_time_start,
        }),
        concept_hit(c, rank, k) == (HitView {
            layer: SourceLayer::Semantic,
            record_id: match c.id {
                Some(id) => id_text(id),
                None => "concept"@ + ":?"@,
            },
            excerpt: excerpt_of(c.content, 240),
            relevance: concept_hit(c, rank, k).relevance,
            importance: c.confidence,
            valid_time: c.valid_time_start,
        }),
        0 < k && rank <= 2 * k ==> concept_hit(c, rank, k).relevance == (Ratio {
            num: (2 * k - rank) as u64,
            den: (2 * k) as u64,
        }),
        rank > 2 * k || k == 0 ==> concept_hit(c, rank, k).relevance.num == 0,
{
}

/// What a hit tells of a procedure, a task and a preference: the record's id, the
/// start of its text or the whole preference, its importance, and when it was
/// last used or reinforced, else made, else now.
pub proof fn a_hit_tells_of_its_record_too(
    p: ProcedureView,
    t: TaskView,
    q: PreferenceView,
    relevance: Ratio,
    now: Timestamp,
)
    ensures
        procedure_hit(p, relevance, now) == (HitView {
            layer: SourceLayer::Procedural,
            record_id: match p.id {
                Some(id) => id_text(id),
                None => "procedure"@ + ":?"@,
            },
            excerpt: excerpt_of(p.content, 240),
            relevance,
            importance: Weight { millionths: 500_000 },
            valid_time: if p.last_used is Some {
                p.last_used->0
            } else if p.created_at is Some {
                p.created_at->0
            } else {
                now
            },
        }),
        task_hit(t, now) == (HitView {
            layer: SourceLayer::Prospective,
            record_id: match t.id {
                Some(id) => id_text(id),
                None => "task"@ + ":?"@,
            },
            excerpt: excerpt_of(t.content, 240),
            relevance: Ratio { num: 1, den: 1 },
            importance: Weight { millionths: 500_000 },
            valid_time: if t.created_at is Some {
                t.created_at->0
            } else {
                now
            },
        }),
        preference_hit(q, now) == (HitView {
            layer: SourceLayer::Preference,
            record_id: match q.id {
                Some(id) => id_text(id),
                None => "preference"@ + ":?"@,
            },
            excerpt: "["@ + q.category + "] "@ + q.direction.name() + ": "@ + q.content,
            relevance: Ratio { num: 1, den: 1 },
            importance: q.strength,
            valid_time: if q.last_reinforced is Some {
                q.last_reinforced->0
            } else if q.created_at is Some {
                q.created_at->0
            } else {
                now
            },
        }),
{
}

/// The hits of a layer are those of its rows, by the filters and the limit of the
/// request: of the episodes the best of those that are wanted, of the concepts
/// those in the range, the procedures, the first tasks, and the preferences.
pub proof fn a_layer_is_read_by_the_request(
    req: RecallRequest,
    lower: Seq<char>,
    rows: RowsView,
    now: Timestamp,
)
    ensures
        match rows {
            RowsView::Episodes(v) => layer_hits_of(req, lower, rows, now) == merged(
                v.filter(
                    |e: EpisodeView| wanted(e, req.entities.deep_view(), req.time_range),
                ).map_values(|e: EpisodeView| episode_hit(e, Ratio { num: 1, den: 2 })),
                req.max_results,
                now,
            ),
            RowsView::Concepts(v) => layer_hits_of(req, lower, rows, now) == semantic(
                v,
                req.time_range,
                req.max_results,
            ),
            RowsView::Procedures(v) => layer_hits_of(req, lower, rows, now) == procedural(
                v,
                lower,
                now,
            ),
            RowsView::Tasks(v) => layer_hits_of(req, lower, rows, now) == prospective(
                v,
                req.max_results,
                now,
            ),
            RowsView::Preferences(v) => layer_hits_of(req, lower, rows, now) == preferential(
                v,
                now,
            ),
        },
{
    if let RowsView::Episodes(v) = rows {
        the_wanted_episodes_are_found(v, req.entities.deep_view(), req.time_range);
    }
}

/// The hits of all layers are those of each of them, and no others.
pub proof fn every_layer_counts(
    req: RecallRequest,
    lower: Seq<char>,
    rows: Seq<RowsView>,
    now: Timestamp,
    hit: HitView,
)
    ensures
        all_hits(req, lower, rows, now).contains(hit) <==> exists|l: int|
            0 <= l < rows.len() && layer_hits_of(req, lower, #[trigger] rows[l], now).contains(hit),
    decreases rows.len(),
{
    if rows.len() > 0 {
        let before = rows.drop_last();
        every_layer_counts(req, lower, before, now, hit);
        let front = all_hits(req, lower, before, now);
        let last = layer_hits_of(req, lower, rows.last(), now);
        let all = all_hits(req, lower, rows, now);
        assert(all == front + last);
        if all.contains(hit) {
            let i = choose|i: int| 0 <= i < all.len() && all[i] == hit;
            if i < front.len() {
                assert(front[i] == hit);
                let l = choose|l: int|
                    0 <= l < before.len() && layer_hits_of(
                        req,
                        lower,
                        #[trigger] before[l],
                        now,
                    ).contains(hit);
                assert(rows[l] == before[l]);
            } else {
                assert(last[i - front.len()] == hit);
                assert(rows[rows.len() - 1] == rows.last());
            }
        }
        if exists|l: int|
            0 <= l < rows.len() && layer_hits_of(req, lower, #[trigger] rows[l], now).contains(
                hit,
            ) {
            let l = choose|l: int|
                0 <= l < rows.len() && layer_hits_of(req, lower, #[trigger] rows[l], now).contains(
                    hit,
                );
            if l < before.len() {
                assert(before[l] == rows[l]);
                assert(front.contains(hit));
                let i = choose|i: int| 0 <= i < front.len() && front[i] == hit;
                assert(all[i] == hit);
            } else {
                let i = choose|i: int| 0 <= i < last.len() && last[i] == hit;
                assert(all[front.len() + i] == hit);
            }
        }
    }
}

/// Some source of an answer is for the same record as a hit and at least as good,
/// or the answer is full of sources that are at least as good.
pub open spec fn answered_by(r: ResponseView, hit: HitView, max: u32, now: Timestamp) -> bool {
    ||| exists|i: int|
        0 <= i < r.sources.len() && (#[trigger] r.sources[i]).layer == hit.layer
            && r.sources[i].record_id == hit.record_id && score_ge(
            r.sources[i].score,
            score_of(hit, now),
        )
    ||| r.sources.len() == max && forall|i: int|
        0 <= i < max ==> score_ge((#[trigger] r.sources[i]).score, score_of(hit, now))
}

proof fn lemma_answered(
    req: RecallRequest,
    lower: Seq<char>,
    layers: Seq<SourceLayer>,
    rows: Seq<RowsView>,
    now: Timestamp,
    hit: HitView,
)
    requires
        all_hits(req, lower, rows, now).contains(hit),
    ensures
        answered_by(recall_answer(req, lower, layers, rows, now), hit, req.max_results, now),
{
    let hits = all_hits(req, lower, rows, now);
    let k = choose|k: int| 0 <= k < hits.len() && hits[k] == hit;
    lemma_all_proper(req, lower, rows, now);
    the_ranking_is_complete(hits, req.max_results, now, k);
    let m = merged(hits, req.max_results, now);
    let r = recall_answer(req, lower, layers, rows, now);
    assert(r.sources.len() == m.len());
    assert forall|i: int| 0 <= i < m.len() implies (#[trigger] r.sources[i]).layer == m[i].layer
        && r.sources[i].record_id == m[i].record_id && r.sources[i].score == score_of(m[i], now) by {}
    if exists|i: int| 0 <= i < m.len() && same_record(#[trigger] m[i], hit) && score_ge(
        score_of(m[i], now),
        score_of(hit, now),
    ) {
        let i = choose|i: int| 0 <= i < m.len() && same_record(#[trigger] m[i], hit) && score_ge(
            score_of(m[i], now),
            score_of(hit, now),
        );
        assert(r.sources[i].layer == hit.layer);
    } else {
        assert forall|i: int| 0 <= i < req.max_results implies score_ge(
            (#[trigger] r.sources[i]).score,
            score_of(hit, now),
        ) by {
            assert(score_ge(score_of(m[i], now), score_of(hit, now)));
        }
    }
}

/// Nothing that is wanted is passed over: an episode that is wanted, and so any
/// other hit of a layer, has a source in the answer that is for its record and at
/// least as good, unless the answer is full of sources that are at least as good.
pub proof fn nothing_that_is_wanted_is_passed_over(
    req: RecallRequest,
    lower: Seq<char>,
    layers: Seq<SourceLayer>,
    rows: Seq<RowsView>,
    now: Timestamp,
    l: int,
    k: int,
)
    requires
        0 <= l < rows.len(),
    ensures
        match rows[l] {
            RowsView::Episodes(v) => 0 <= k < v.len() && wanted(
                v[k],
                req.entities.deep_view(),
                req.time_range,
            ) ==> answered_by(
                recall_answer(req, lower, layers, rows, now),
                episode_hit(v[k], Ratio { num: 1, den: 2 }),
                req.max_results,
                now,
            ),
            _ => 0 <= k < layer_hits_of(req, lower, rows[l], now).len() ==> answered_by(
                recall_answer(req, lower, layers, rows, now),
                layer_hits_of(req, lower, rows[l], now)[k],
                req.max_results,
                now,
            ),
        },
{
    let r = recall_answer(req, lower, layers, rows, now);
    let found = layer_hits_of(req, lower, rows[l], now);
    if let RowsView::Episodes(v) = rows[l] {
        let names = req.entities.deep_view();
        if 0 <= k < v.len() && wanted(v[k], names, req.time_range) {
            let hit = episode_hit(v[k], Ratio { num: 1, den: 2 });
            let passing = episodes_passing(v, names, req.time_range);
            the_wanted_episodes_are_found(v, names, req.time_range);
            let p = choose|p: int| 0 <= p < passing.len() && passing[p] == hit;
            lemma_episodes_proper(v, names, req.time_range);
            the_ranking_is_complete(passing, req.max_results, now, p);
            the_ranking_is_sound(passing, req.max_results, now);
            if exists|i: int| 0 <= i < found.len() && same_record(#[trigger] found[i], hit)
                && score_ge(score_of(found[i], now), score_of(hit, now)) {
                let i = choose|i: int|
                    0 <= i < found.len() && same_record(#[trigger] found[i], hit) && score_ge(
                        score_of(found[i], now),
                        score_of(hit, now),
                    );
                lemma_still_answered(req, lower, layers, rows, now, l, i, hit);
            } else {
                lemma_full_answer(req, lower, layers, rows, now, l, hit);
            }
        }
    } else if 0 <= k < found.len() {
        every_layer_counts(req, lower, rows, now, found[k]);
        assert(found.contains(found[k]));
        lemma_answered(req, lower, layers, rows, now, found[k]);
    }
}

proof fn lemma_still_answered(
    req: RecallRequest,
    lower: Seq<char>,
    layers: Seq<SourceLayer>,
    rows: Seq<RowsView>,
    now: Timestamp,
    l: int,
    i: int,
    hit: HitView,
)
    requires
        0 <= l < rows.len(),
        0 <= i < layer_hits_of(req, lower, rows[l], now).len(),
        hit.relevance.wf(),
        layer_hits_of(req, lower, rows[l], now)[i].relevance.wf(),
        same_record(layer_hits_of(req, lower, rows[l], now)[i], hit),
        score_ge(score_of(layer_hits_of(req, lower, rows[l], now)[i], now), score_of(hit, now)),
    ensures
        answered_by(recall_answer(req, lower, layers, rows, now), hit, req.max_results, now),
{
    let found = layer_hits_of(req, lower, rows[l], now);
    let better = found[i];
    let r = recall_answer(req, lower, layers, rows, now);
    assert(found.contains(better));
    every_layer_counts(req, lower, rows, now, better);
    lemma_answered(req, lower, layers, rows, now, better);
    lemma_sources_comparable(req, lower, layers, rows, now);
    scores_are_bounded(better, now);
    scores_are_bounded(hit, now);
    if exists|j: int| 0 <= j < r.sources.len() && (#[trigger] r.sources[j]).layer == better.layer
        && r.sources[j].record_id == better.record_id && score_ge(
        r.sources[j].score,
        score_of(better, now),
    ) {
        let j = choose|j: int|
            0 <= j < r.sources.len() && (#[trigger] r.sources[j]).layer == better.layer
                && r.sources[j].record_id == better.record_id && score_ge(
                r.sources[j].score,
                score_of(better, now),
            );
        score_ge_transitive(r.sources[j].score, score_of(better, now), score_of(hit, now));
    } else {
        assert forall|j: int| 0 <= j < req.max_results implies score_ge(
            (#[trigger] r.sources[j]).score,
            score_of(hit, now),
        ) by {
            score_ge_transitive(r.sources[j].score, score_of(better, now), score_of(hit, now));
        }
    }
}

proof fn lemma_sources_comparable(
    req: RecallRequest,
    lower: Seq<char>,
    layers: Seq<SourceLayer>,
    rows: Seq<RowsView>,
    now: Timestamp,
)
    ensures
        forall|j: int|
            0 <= j < recall_answer(req, lower, layers, rows, now).sources.len() ==> comparable(
                (#[trigger] recall_answer(req, lower, layers, rows, now).sources[j]).score,
            ),
{
    let hits = all_hits(req, lower, rows, now);
    let m = merged(hits, req.max_results, now);
    let r = recall_answer(req, lower, layers, rows, now);
    lemma_all_proper(req, lower, rows, now);
    the_ranking_is_sound(hits, req.max_results, now);
    assert forall|j: int| 0 <= j < r.sources.len() implies comparable(
        (#[trigger] r.sources[j]).score,
    ) by {
        assert(hits.contains(m[j]));
        let k = choose|k: int| 0 <= k < hits.len() && hits[k] == m[j];
        assert(hits[k].relevance.wf());
        scores_are_bounded(m[j], now);
    }
}

proof fn lemma_full_answer(
    req: RecallRequest,
    lower: Seq<char>,
    layers: Seq<SourceLayer>,
    rows: Seq<RowsView>,
    now: Timestamp,
    l: int,
    hit: HitView,
)
    requires
        0 <= l < rows.len(),
        hit.relevance.wf(),
        rows[l] is Episodes,
        layer_hits_of(req, lower, rows[l], now).len() == req.max_results,
        forall|i: int|
            0 <= i < req.max_results ==> score_ge(
                score_of(#[trigger] layer_hits_of(req, lower, rows[l], now)[i], now),
                score_of(hit, now),
            ),
    ensures
        answered_by(recall_answer(req, lower, layers, rows, now), hit, req.max_results, now),
{
    let found = layer_hits_of(req, lower, rows[l], now);
    let hits = all_hits(req, lower, rows, now);
    let m = merged(hits, req.max_results, now);
    let r = recall_answer(req, lower, layers, rows, now);
    let max = req.max_results as int;
    lemma_all_proper(req, lower, rows, now);
    lemma_sources_comparable(req, lower, layers, rows, now);
    the_ranking_is_sound(hits, req.max_results, now);
    let v = rows[l]->Episodes_0;
    let passing = episodes_passing(v, req.entities.deep_view(), req.time_range);
    lemma_episodes_proper(v, req.entities.deep_view(), req.time_range);
    the_ranking_is_sound(passing, req.max_results, now);
    scores_are_bounded(hit, now);
    assert forall|i: int| 0 <= i < found.len() implies (#[trigger] found[i]).relevance.wf()
        && hits.contains(found[i]) by {
        assert(passing.contains(found[i]));
        let p = choose|p: int| 0 <= p < passing.len() && passing[p] == found[i];
        assert(passing[p].relevance.wf());
        assert(found.contains(found[i]));
        every_layer_counts(req, lower, rows, now, found[i]);
    }
    let full = |i: int| m.len() == max && forall|j: int|
        0 <= j < max ==> score_ge(score_of(#[trigger] m[j], now), score_of(found[i], now));
    if exists|i: int| 0 <= i < max && #[trigger] full(i) {
        let i = choose|i: int| 0 <= i < max && #[trigger] full(i);
        scores_are_bounded(found[i], now);
        assert forall|j: int| 0 <= j < max implies score_ge(
            (#[trigger] r.sources[j]).score,
            score_of(hit, now),
        ) by {
            assert(score_ge(score_of(m[j], now), score_of(found[i], now)));
            score_ge_transitive(r.sources[j].score, score_of(found[i], now), score_of(hit, now));
        }
    } else {
        // Every hit of the layer has a place of its own in the answer, and so
        // they take all of its places.
        let at = |i: int, j: int|
            0 <= j < m.len() && same_record(m[j], found[i]) && score_ge(
                score_of(m[j], now),
                score_of(found[i], now),
            );
        let place = Seq::new(max as nat, |i: int| choose|j: int| #[trigger] at(i, j));
        assert forall|i: int| 0 <= i < max implies at(i, #[trigger] place[i]) by {
            let k = choose|k: int| 0 <= k < hits.len() && hits[k] == found[i];
            assert(hits.contains(found[i]));
            the_ranking_is_complete(hits, req.max_results, now, k);
            assert(!full(i));
            let j = choose|j: int|
                0 <= j < m.len() && same_record(#[trigger] m[j], hits[k]) && score_ge(
                    score_of(m[j], now),
                    score_of(hits[k], now),
                );
            assert(at(i, j));
        }
        assert(place.no_duplicates()) by {
            assert forall|i: int, j: int|
                0 <= i < place.len() && 0 <= j < place.len() && i != j implies place[i]
                != place[j] by {
                assert(at(i, place[i]) && at(j, place[j]));
                assert(!same_record(found[i], found[j]));
            }
        }
        let taken = place.to_set();
        let places = vstd::set_lib::set_int_range(0, m.len() as int);
        place.unique_seq_to_set();
        vstd::set_lib::lemma_int_range(0, m.len() as int);
        assert(taken.subset_of(places)) by {
            assert forall|x: int| taken.contains(x) implies places.contains(x) by {
                let i = choose|i: int| 0 <= i < place.len() && place[i] == x;
                assert(at(i, place[i]));
            }
        }
        vstd::set_lib::lemma_len_subset(taken, places);
        assert(m.len() == max);
        vstd::set_lib::lemma_subset_equality(taken, places);
        assert forall|j: int| 0 <= j < max implies score_ge(
            (#[trigger] r.sources[j]).score,
            score_of(hit, now),
        ) by {
            assert(places.contains(j));
            assert(taken.contains(j));
            let i = choose|i: int| 0 <= i < place.len() && place[i] == j;
            assert(at(i, place[i]));
            scores_are_bounded(found[i], now);
            score_ge_transitive(r.sources[j].score, score_of(found[i], now), score_of(hit, now));
        }
    }
}

/// The text of an answer: a line that counts the hits and the layers, and then
/// one line for each hit, with its layer and its excerpt.
pub proof fn the_context_has_a_line_for_each_hit(hits: Seq<HitView>, layers: nat)
    ensures
        hits.len() == 0 ==> context_of(hits, layers as int).len() == 0,
        hits.len() > 0 ==> exists|lines: Seq<Seq<char>>|
            {
                &&& context_of(hits, layers as int) == #[trigger] joined(lines, "\n"@)
                &&& lines.len() == hits.len() + 1
                &&& lines[0] == "Memory context ("@ + decimal_of(hits.len()) + (if hits.len() == 1 {
                    " hit"@ + ""@
                } else {
                    " hit"@ + "s"@
                }) + " across "@ + decimal_of(layers) + (if layers == 1 {
                    " layer"@ + ""@
                } else {
                    " layer"@ + "s"@
                }) + "):"@
                &&& forall|i: int|
                    0 <= i < hits.len() ==> #[trigger] lines[i + 1] == hits[i].layer.name() + ": "@
                        + (if hits[i].excerpt.len() == 0 {
                        "<no content>"@
                    } else {
                        hits[i].excerpt
                    })
            },
{
    if hits.len() > 0 {
        let lines = context_lines(hits, layers as int);
        assert(lines[0] =~= "Memory context ("@ + decimal_of(hits.len()) + (if hits.len() == 1 {
            " hit"@ + ""@
        } else {
            " hit"@ + "s"@
        }) + " across "@ + decimal_of(layers) + (if layers == 1 {
            " layer"@ + ""@
        } else {
            " layer"@ + "s"@
        }) + "):"@);
        assert forall|i: int| 0 <= i < hits.len() implies #[trigger] lines[i + 1]
            == hits[i].layer.name() + ": "@ + (if hits[i].excerpt.len() == 0 {
            "<no content>"@
        } else {
            hits[i].excerpt
        }) by {}
        assert(context_of(hits, layers as int) == joined(lines, "\n"@));
    }
}

/// The sources of an answer are the merged hits, one by one: each with its layer,
/// its record, its excerpt, its score and its time.
pub proof fn a_source_tells_of_its_hit(
    req: RecallRequest,
    lower: Seq<char>,
    layers: Seq<SourceLayer>,
    rows: Seq<RowsView>,
    now: Timestamp,
)
    ensures
        ({
            let r = recall_answer(req, lower, layers, rows, now);
            let hits = merged(all_hits(req, lower, rows, now), req.max_results, now);
            &&& r.sources.len() == hits.len()
            &&& forall|i: int|
                0 <= i < hits.len() ==> (#[trigger] r.sources[i]) == (SourceView {
                    layer: hits[i].layer,
                    record_id: hits[i].record_id,
                    excerpt: hits[i].excerpt,
                    score: score_of(hits[i], now),
                    valid_time: hits[i].valid_time,
                })
            &&& r.context == context_of(hits, layers.len() as int)
            &&& r.query_types == layers
        }),
{
}

/// More episodes are fetched than are asked for: four times as many, and twenty
/// at least.
pub proof fn the_window_is_wide(max_results: u32)
    ensures
        window(max_results) >= 20,
        window(max_results) >= 4 * max_results,
        window(max_results) == 20 || window(max_results) == 4 * max_results,
{
}

} // verus!

//! Hits of a recall: how they score, and how the hits of several layers are
//! merged into one ranking.
use vstd::prelude::*;
use crate::memory::response::{Score, SourceLayer};
use crate::sorting::{
    all_rankable, ranked, ranked_commutes, ranked_is_a_sorted_permutation, sort_ranked, Rank,
    Ranked,
};
use crate::storage::record::Weight;
use crate::text::same_text;
use crate::time::{minutes_between, Timestamp};

verus! {

/// A number between zero and one, as a fraction.
#[derive(Debug, Clone, Copy, PartialEq, Eq, Structural)]
pub struct Ratio {
    pub num: u64,
    pub den: u64,
}

/// The largest denominator of a relevance.
pub const MAX_RELEVANCE_DEN: u64 = 0x2_0000_0000;

impl Ratio {
    /// The fraction lies between zero and one, and its parts are small.
    pub open spec fn wf(self) -> bool {
        self.num <= self.den && 0 < self.den <= MAX_RELEVANCE_DEN
    }
}

/// A hit of one layer.
#[derive(Debug)]
pub struct RawHit {
    pub layer: SourceLayer,
    pub record_id: String,
    pub excerpt: String,
    /// How well the record fits the question.
    pub relevance: Ratio,
    /// How important the record is.
    pub importance: Weight,
    /// The time that the record's recency is measured from.
    pub valid_time: Timestamp,
}

/// What a [`RawHit`] holds.
pub struct HitView {
    pub layer: SourceLayer,
    pub record_id: Seq<char>,
    pub excerpt: Seq<char>,
    pub relevance: Ratio,
    pub importance: Weight,
    pub valid_time: Timestamp,
}

impl DeepView for RawHit {
    type V = HitView;

    open spec fn deep_view(&self) -> HitView {
        HitView {
            layer: self.layer,
            record_id: self.record_id@,
            excerpt: self.excerpt@,
            relevance: self.relevance,
            importance: self.importance,
            valid_time: self.valid_time,
        }
    }
}

/// All of the hits have a proper relevance.
pub open spec fn proper(hits: Seq<HitView>) -> bool {
    forall|i: int| 0 <= i < hits.len() ==> (#[trigger] hits[i]).relevance.wf()
}

// --- Scores ------------------------------------------------------------------

/// The recency of a record, between a tenth and one: it falls with the age of
/// the record, to a half at thirty days. A record of the future is recent.
pub open spec fn recency(t: Timestamp, now: Timestamp) -> Ratio {
    let minutes = minutes_between(t, now);
    if minutes <= 0 {
        Ratio { num: 1, den: 1 }
    } else if minutes >= 388_800 {
        Ratio { num: 1, den: 10 }
    } else {
        Ratio { num: 43_200, den: (43_200 + minutes) as u64 }
    }
}

/// The recency of a record.
pub fn recency_weight(t: Timestamp, now: Timestamp) -> (r: Ratio)
    ensures
        r == recency(t, now),
        r.wf(),
        10 * r.num >= r.den,
        r.num <= 43_200,
        r.den <= 432_000,
{
    let minutes: i128 = now.minutes_since(t);
    if minutes <= 0 {
        Ratio { num: 1, den: 1 }
    } else if minutes >= 388_800 {
        Ratio { num: 1, den: 10 }
    } else {
        Ratio { num: 43_200, den: 43_200 + minutes as u64 }
    }
}

/// `a` is at least as large as `b`.
pub open spec fn ratio_ge(a: Ratio, b: Ratio) -> bool {
    a.num * b.den >= b.num * a.den
}

/// The recency is never above one and never below a tenth.
pub proof fn recency_is_bounded(t: Timestamp, now: Timestamp)
    ensures
        recency(t, now).wf(),
        ratio_ge(recency(t, now), Ratio { num: 1, den: 10 }),
        ratio_ge(Ratio { num: 1, den: 1 }, recency(t, now)),
{
}

/// Of two records the older one is not the more recent.
pub proof fn recency_falls_with_age(old: Timestamp, new: Timestamp, now: Timestamp)
    requires
        old.instant() <= new.instant(),
    ensures
        ratio_ge(recency(new, now), recency(old, now)),
{
    let a = minutes_between(new, now);
    let b = minutes_between(old, now);
    let x = now.instant() - new.instant();
    let y = now.instant() - old.instant();
    assert(x <= y);
    assert(a <= b) by {
        if x >= 0 {
            assert(x / 60_000_000_000 <= y / 60_000_000_000) by (nonlinear_arith)
                requires
                    0 <= x <= y,
            ;
        } else if y < 0 {
            assert((-y) / 60_000_000_000 <= (-x) / 60_000_000_000) by (nonlinear_arith)
                requires
                    0 <= -y <= -x,
            ;
        } else {
            assert((-x) / 60_000_000_000 >= 0) by (nonlinear_arith)
                requires
                    -x >= 0,
            ;
            assert(y / 60_000_000_000 >= 0) by (nonlinear_arith)
                requires
                    y >= 0,
            ;
        }
    }
}

/// A record of the future is as recent as can be.
pub proof fn the_future_is_recent(t: Timestamp, now: Timestamp)
    requires
        t.instant() >= now.instant(),
    ensures
        recency(t, now) == (Ratio { num: 1, den: 1 }),
{
    let y = t.instant() - now.instant();
    assert(y / 60_000_000_000 >= 0) by (nonlinear_arith)
        requires
            y >= 0,
    ;
}

/// The score of a hit: relevance times recency times importance, in millionths.
pub open spec fn score_of(hit: HitView, now: Timestamp) -> Score {
    let recent = recency(hit.valid_time, now);
    Score {
        numerator: (hit.relevance.num * recent.num * hit.importance.clamped_spec().millionths)
            as u128,
        denominator: (hit.relevance.den * recent.den) as u128,
    }
}

/// The parts of a score are small enough to be compared.
pub open spec fn comparable(s: Score) -> bool {
    &&& s.numerator <= 0x20_0000_0000_0000_0000
    &&& 0 < s.denominator <= 0x10_0000_0000_0000
}

/// `a` is at least as large as `b`.
pub open spec fn score_ge(a: Score, b: Score) -> bool {
    a.numerator * b.denominator >= b.numerator * a.denominator
}

proof fn lemma_score_parts(rn: int, rd: int, tn: int, td: int, m: int)
    requires
        0 <= rn <= rd <= 0x2_0000_0000,
        0 < rd,
        0 < tn <= 43_200,
        0 < td <= 432_000,
        tn <= td,
        0 <= m <= 1_000_000,
    ensures
        0 <= rn * tn <= 0x2_0000_0000 * 43_200,
        0 <= rn * tn * m <= 0x20_0000_0000_0000_0000,
        0 < rd * td <= 0x10_0000_0000_0000,
        rn * tn * m <= 1_000_000 * (rd * td),
{
    assert(0 <= rn * tn <= 0x2_0000_0000 * 43_200) by (nonlinear_arith)
        requires
            0 <= rn <= 0x2_0000_0000,
            0 < tn <= 43_200,
    ;
    let p = rn * tn;
    assert(0 <= p * m <= 0x2_0000_0000 * 43_200 * 1_000_000) by (nonlinear_arith)
        requires
            0 <= p <= 0x2_0000_0000 * 43_200,
            0 <= m <= 1_000_000,
    ;
    assert(0 < rd * td <= 0x2_0000_0000 * 432_000) by (nonlinear_arith)
        requires
            0 < rd <= 0x2_0000_0000,
            0 < td <= 432_000,
    ;
    assert(p <= rd * td) by (nonlinear_arith)
        requires
            p == rn * tn,
            0 <= rn <= rd,
            0 < tn <= td,
    ;
    assert(p * m <= 1_000_000 * (rd * td)) by (nonlinear_arith)
        requires
            0 <= p <= rd * td,
            0 <= m <= 1_000_000,
    ;
}

/// The score of a proper hit can be compared, and lies between zero and one.
pub proof fn scores_are_bounded(hit: HitView, now: Timestamp)
    requires
        hit.relevance.wf(),
    ensures
        comparable(score_of(hit, now)),
        score_of(hit, now).numerator <= 1_000_000 * score_of(hit, now).denominator,
{
    let recent = recency(hit.valid_time, now);
    lemma_score_parts(
        hit.relevance.num as int,
        hit.relevance.den as int,
        recent.num as int,
        recent.den as int,
        hit.importance.clamped_spec().millionths as int,
    );
}

impl RawHit {
    /// The score of the hit.
    pub fn score(&self, now: Timestamp) -> (r: Score)
        requires
            self.relevance.wf(),
        ensures
            r == score_of(self.deep_view(), now),
            comparable(r),
    {
        let recent = recency_weight(self.valid_time, now);
        let importance = self.importance.clamped();
        proof {
            lemma_score_parts(
                self.relevance.num as int,
                self.relevance.den as int,
                recent.num as int,
                recent.den as int,
                importance.millionths as int,
            );
        }
        Score {
            numerator: self.relevance.num as u128 * recent.num as u128
                * importance.millionths as u128,
            denominator: self.relevance.den as u128 * recent.den as u128,
        }
    }
}

/// Whether `a` is at least as large as `b`.
pub fn is_score_ge(a: Score, b: Score) -> (r: bool)
    requires
        comparable(a),
        comparable(b),
    ensures
        r == score_ge(a, b),
{
    proof {
        lemma_cross(a.numerator as int, b.denominator as int);
        lemma_cross(b.numerator as int, a.denominator as int);
    }
    a.numerator * b.denominator >= b.numerator * a.denominator
}

proof fn lemma_cross(n: int, d: int)
    requires
        0 <= n <= 0x20_0000_0000_0000_0000,
        0 < d <= 0x10_0000_0000_0000,
    ensures
        0 <= n * d <= 0x20_0000_0000_0000_0000 * 0x10_0000_0000_0000,
{
    assert(0 <= n * d <= 0x20_0000_0000_0000_0000 * 0x10_0000_0000_0000) by (nonlinear_arith)
        requires
            0 <= n <= 0x20_0000_0000_0000_0000,
            0 < d <= 0x10_0000_0000_0000,
    ;
}

/// The order of scores carries over.
pub proof fn score_ge_transitive(a: Score, b: Score, c: Score)
    requires
        a.denominator > 0,
        b.denominator > 0,
        c.denominator > 0,
        score_ge(a, b),
        score_ge(b, c),
    ensures
        score_ge(a, c),
{
    let (an, ad) = (a.numerator as int, a.denominator as int);
    let (bn, bd) = (b.numerator as int, b.denominator as int);
    let (cn, cd) = (c.numerator as int, c.denominator as int);
    assert(an * bd * cd >= bn * ad * cd) by (nonlinear_arith)
        requires
            an * bd >= bn * ad,
            cd > 0,
    ;
    assert(bn * cd * ad >= cn * bd * ad) by (nonlinear_arith)
        requires
            bn * cd >= cn * bd,
            ad > 0,
    ;
    assert(bn * ad * cd == bn * cd * ad) by (nonlinear_arith);
    assert(an * bd * cd == (an * cd) * bd) by (nonlinear_arith);
    assert(cn * bd * ad == (cn * ad) * bd) by (nonlinear_arith);
    assert(an * cd >= cn * ad) by (nonlinear_arith)
        requires
            (an * cd) * bd >= (cn * ad) * bd,
            bd > 0,
    ;
}

// --- Scored hits -------------------------------------------------------------

/// A hit with its score.
#[derive(Debug)]
pub struct ScoredHit {
    pub hit: RawHit,
    pub score: Score,
}

/// What a [`ScoredHit`] holds.
pub struct ScoredView {
    pub hit: HitView,
    pub score: Score,
}

impl DeepView for ScoredHit {
    type V = ScoredView;

    open spec fn deep_view(&self) -> ScoredView {
        ScoredView { hit: self.hit.deep_view(), score: self.score }
    }
}

impl Rank for ScoredView {
    open spec fn rankable(self) -> bool {
        comparable(self.score)
    }

    open spec fn ranks_before(self, other: Self) -> bool {
        score_ge(self.score, other.score)
    }

    proof fn rank_is_total(self, other: Self) {
    }

    proof fn rank_is_transitive(self, mid: Self, other: Self) {
        score_ge_transitive(self.score, mid.score, other.score);
    }
}

impl Rank for ScoredHit {
    open spec fn rankable(self) -> bool {
        comparable(self.score)
    }

    open spec fn ranks_before(self, other: Self) -> bool {
        score_ge(self.score, other.score)
    }

    proof fn rank_is_total(self, other: Self) {
    }

    proof fn rank_is_transitive(self, mid: Self, other: Self) {
        score_ge_transitive(self.score, mid.score, other.score);
    }
}

impl Ranked for ScoredHit {
    fn may_precede(&self, other: &Self) -> (r: bool) {
        is_score_ge(self.score, other.score)
    }
}

// --- Merging -----------------------------------------------------------------

/// Two hits stand for the same record of the same layer.
pub open spec fn same_record(a: HitView, b: HitView) -> bool {
    a.layer == b.layer && a.record_id == b.record_id
}

/// The position of the hit for the same record, or the length.
pub open spec fn place_of(kept: Seq<ScoredView>, hit: HitView) -> int
    decreases kept.len(),
{
    if kept.len() == 0 {
        0
    } else {
        let i = place_of(kept.drop_last(), hit);
        if i < kept.len() - 1 {
            i
        } else if same_record(kept.last().hit, hit) {
            kept.len() - 1
        } else {
            kept.len() as int
        }
    }
}

/// `kept` with one more hit: of two hits for the same record the better one
/// stays, the earlier one where they are equal.
pub open spec fn keep_better(kept: Seq<ScoredView>, x: ScoredView) -> Seq<ScoredView> {
    let i = place_of(kept, x.hit);
    if i >= kept.len() {
        kept.push(x)
    } else if score_ge(kept[i].score, x.score) {
        kept
    } else {
        kept.update(i, x)
    }
}

/// One hit per record, the best one, in the order in which the records were
/// first seen.
pub open spec fn best_per_record(hits: Seq<ScoredView>) -> Seq<ScoredView>
    decreases hits.len(),
{
    if hits.len() == 0 {
        hits
    } else {
        keep_better(best_per_record(hits.drop_last()), hits.last())
    }
}

/// The hits with their scores.
pub open spec fn scored(hits: Seq<HitView>, now: Timestamp) -> Seq<ScoredView> {
    hits.map_values(|h: HitView| ScoredView { hit: h, score: score_of(h, now) })
}

/// At most `max` elements from the front.
pub open spec fn top<A>(s: Seq<A>, max: int) -> Seq<A> {
    if max < s.len() {
        s.take(max)
    } else {
        s
    }
}

/// The merged ranking: one hit per record, best first, at most `max` of them.
pub open spec fn merged(hits: Seq<HitView>, max: u32, now: Timestamp) -> Seq<HitView> {
    top(ranked(best_per_record(scored(hits, now))), max as int).map_values(|s: ScoredView| s.hit)
}

fn find_place(kept: &Vec<ScoredHit>, hit: &RawHit) -> (r: usize)
    ensures
        r == place_of(kept.deep_view(), hit.deep_view()),
        r <= kept@.len(),
{
    let mut i: usize = 0;
    assert(kept.deep_view().take(0) =~= Seq::<ScoredView>::empty());
    while i < kept.len()
        invariant
            i <= kept@.len(),
            place_of(kept.deep_view().take(i as int), hit.deep_view()) == i,
        decreases kept@.len() - i,
    {
        let ghost all = kept.deep_view();
        assert(all.take(i + 1).drop_last() == all.take(i as int));
        assert(all.take(i + 1).last() == kept@[i as int].deep_view());
        if kept[i].hit.layer == hit.layer && same_text(
            kept[i].hit.record_id.as_str(),
            hit.record_id.as_str(),
        ) {
            proof {
                lemma_place_stays(all, hit.deep_view(), i as int + 1, i as int);
            }
            return i;
        }
        i = i + 1;
    }
    assert(kept.deep_view().take(i as int) == kept.deep_view());
    i
}

proof fn lemma_place_stays(kept: Seq<ScoredView>, hit: HitView, n: int, i: int)
    requires
        0 <= i < n <= kept.len(),
        place_of(kept.take(n), hit) == i,
    ensures
        place_of(kept, hit) == i,
    decreases kept.len() - n,
{
    if n < kept.len() {
        assert(kept.take(n + 1).drop_last() == kept.take(n));
        lemma_place_stays(kept, hit, n + 1, i);
    } else {
        assert(kept.take(n) == kept);
    }
}

/// Merges the hits of all layers: one hit per record of a layer, the best one;
/// the best hits first; at most `max_results` of them.
pub fn merge_and_rerank(hits: Vec<RawHit>, max_results: u32, now: Timestamp) -> (r: Vec<RawHit>)
    requires
        proper(hits.deep_view()),
    ensures
        r.deep_view() == merged(hits.deep_view(), max_results, now),
        proper(r.deep_view()),
{
    let ghost items = hits@;
    let ghost all = hits.deep_view();
    let ghost marks = scored(all, now);
    let mut rest = hits;
    let mut kept: Vec<ScoredHit> = Vec::new();
    let ghost mut done: int = 0;
    assert(items.skip(0) == items);
    assert(kept.deep_view() =~= best_per_record(marks.take(0)));
    while rest.len() > 0
        invariant
            0 <= done <= all.len(),
            rest@ == items.skip(done),
            all.len() == items.len(),
            forall|i: int| 0 <= i < items.len() ==> (#[trigger] items[i]).deep_view() == all[i],
            proper(all),
            marks == scored(all, now),
            kept.deep_view() == best_per_record(marks.take(done)),
            all_rankable(kept@),
            proper(kept.deep_view().map_values(|s: ScoredView| s.hit)),
        decreases rest@.len(),
    {
        let hit = rest.remove(0);
        assert(hit == items[done]);
        assert(rest@ =~= items.skip(done + 1));
        assert(marks.take(done + 1).drop_last() == marks.take(done));
        let score = hit.score(now);
        let ghost x = ScoredView { hit: hit.deep_view(), score };
        assert(marks.take(done + 1).last() == x);
        let place = find_place(&kept, &hit);
        let ghost before = kept.deep_view();
        let ghost hits_before = before.map_values(|s: ScoredView| s.hit);
        if place == kept.len() {
            kept.push(ScoredHit { hit, score });
            assert(kept.deep_view() =~= before.push(x));
            assert(kept.deep_view().map_values(|s: ScoredView| s.hit) =~= hits_before.push(x.hit));
        } else {
            assert(before[place as int].score == kept@[place as int].score);
            if !is_score_ge(kept[place].score, score) {
                kept.set(place, ScoredHit { hit, score });
                assert(kept.deep_view() =~= before.update(place as int, x));
                assert(kept.deep_view().map_values(|s: ScoredView| s.hit) =~= hits_before.update(
                    place as int,
                    x.hit,
                ));
            }
        }
        proof {
            done = done + 1;
        }
    }
    assert(marks.take(done) == marks);
    let ghost deduped = kept@;
    let mut sorted = sort_ranked(kept);
    proof {
        let f = |s: ScoredHit| s.deep_view();
        ranked_commutes(deduped, f);
        assert(kept.deep_view() =~= deduped.map_values(f));
        assert(sorted.deep_view() =~= ranked(deduped).map_values(f));
        lemma_ranked_proper(best_per_record(marks));
    }
    let ghost ordered = sorted@;
    let ghost ranking = sorted.deep_view();
    let ghost count = if max_results < ranking.len() {
        max_results as int
    } else {
        ranking.len() as int
    };
    let mut out: Vec<RawHit> = Vec::new();
    let ghost mut taken: int = 0;
    let mut left: u32 = max_results;
    assert(ordered.skip(0) == ordered);
    while left > 0 && sorted.len() > 0
        invariant
            0 <= taken <= ranking.len(),
            taken + left == max_results,
            sorted@ == ordered.skip(taken),
            ranking.len() == ordered.len(),
            forall|i: int| 0 <= i < ordered.len() ==> (#[trigger] ordered[i]).deep_view() == ranking[i],
            out.deep_view() == ranking.take(taken).map_values(|s: ScoredView| s.hit),
        decreases left,
    {
        let s = sorted.remove(0);
        assert(s == ordered[taken]);
        assert(sorted@ =~= ordered.skip(taken + 1));
        let ghost before = out.deep_view();
        let ghost h = s.hit.deep_view();
        out.push(s.hit);
        assert(out.deep_view() =~= before.push(h));
        assert(ranking.take(taken + 1).map_values(|s: ScoredView| s.hit) =~= ranking.take(
            taken,
        ).map_values(|s: ScoredView| s.hit).push(h));
        left = left - 1;
        proof {
            taken = taken + 1;
        }
    }
    proof {
        assert(taken == ranking.len() || taken == max_results);
        assert(taken == count);
        assert(ranking.take(taken) == top(ranking, max_results as int));
    }
    out
}

proof fn lemma_ranked_proper(kept: Seq<ScoredView>)
    requires
        proper(kept.map_values(|s: ScoredView| s.hit)),
        all_rankable(kept),
    ensures
        forall|i: int|
            0 <= i < ranked(kept).len() ==> (#[trigger] ranked(kept)[i]).hit.relevance.wf(),
{
    broadcast use vstd::seq_lib::group_to_multiset_ensures;

    ranked_is_a_sorted_permutation(kept);
    let hits = kept.map_values(|s: ScoredView| s.hit);
    assert forall|i: int| 0 <= i < ranked(kept).len() implies (#[trigger] ranked(
        kept,
    )[i]).hit.relevance.wf() by {
        let x = ranked(kept)[i];
        assert(ranked(kept).contains(x));
        assert(ranked(kept).to_multiset().count(x) > 0);
        assert(kept.contains(x));
        let k = choose|k: int| 0 <= k < kept.len() && kept[k] == x;
        assert(hits[k] == x.hit);
    }
}

// --- What merging keeps ------------------------------------------------------

proof fn lemma_place(kept: Seq<ScoredView>, hit: HitView)
    ensures
        0 <= place_of(kept, hit) <= kept.len(),
        place_of(kept, hit) < kept.len() ==> same_record(kept[place_of(kept, hit)].hit, hit),
        forall|j: int|
            0 <= j < place_of(kept, hit) ==> !same_record((#[trigger] kept[j]).hit, hit),
    decreases kept.len(),
{
    if kept.len() > 0 {
        let front = kept.drop_last();
        lemma_place(front, hit);
        assert(forall|j: int| 0 <= j < front.len() ==> #[trigger] front[j] == kept[j]);
        let i = place_of(kept, hit);
        assert forall|j: int| 0 <= j < i implies !same_record((#[trigger] kept[j]).hit, hit) by {
            if j < front.len() {
                assert(front[j] == kept[j]);
            }
        }
    }
}

/// `kept[i]` is for the same record as `x` and at least as good.
pub open spec fn covers(kept: Seq<ScoredView>, i: int, x: ScoredView) -> bool {
    0 <= i < kept.len() && same_record(kept[i].hit, x.hit) && score_ge(kept[i].score, x.score)
}

/// Some hit of `kept` is for the same record as `x` and at least as good.
pub open spec fn covered(kept: Seq<ScoredView>, x: ScoredView) -> bool {
    exists|i: int| covers(kept, i, x)
}

proof fn lemma_best(s: Seq<ScoredView>)
    requires
        all_rankable(s),
    ensures
        best_per_record(s).len() <= s.len(),
        all_rankable(best_per_record(s)),
        forall|i: int| 0 <= i < best_per_record(s).len() ==> s.contains(#[trigger] best_per_record(s)[i]),
        forall|i: int, j: int|
            0 <= i < best_per_record(s).len() && 0 <= j < best_per_record(s).len() && i != j
                ==> !same_record(
                (#[trigger] best_per_record(s)[i]).hit,
                (#[trigger] best_per_record(s)[j]).hit,
            ),
        forall|k: int|
            0 <= k < s.len() ==> covered(best_per_record(s), #[trigger] s[k]),
    decreases s.len(),
{
    if s.len() > 0 {
        let front = s.drop_last();
        let x = s.last();
        assert(all_rankable(front)) by {
            assert forall|i: int| 0 <= i < front.len() implies (#[trigger] front[i]).rankable() by {
                assert(front[i] == s[i]);
            }
        }
        assert(s[s.len() - 1] == x);
        assert(x.rankable());
        lemma_best(front);
        let d = best_per_record(front);
        let e = best_per_record(s);
        let p = place_of(d, x.hit);
        lemma_place(d, x.hit);
        x.rank_is_total(x);
        if p < d.len() {
            d[p].rank_is_total(x);
        }
        assert forall|i: int| 0 <= i < e.len() implies s.contains(#[trigger] e[i]) by {
            if e[i] == x {
                assert(s[s.len() - 1] == x);
            } else {
                assert(i < d.len() && e[i] == d[i]);
                assert(front.contains(d[i]));
                let k = choose|k: int| 0 <= k < front.len() && front[k] == d[i];
                assert(s[k] == e[i]);
            }
        }
        assert forall|i: int, j: int|
            0 <= i < e.len() && 0 <= j < e.len() && i != j implies !same_record(
            (#[trigger] e[i]).hit,
            (#[trigger] e[j]).hit,
        ) by {
            if p >= d.len() {
                if i < d.len() && j < d.len() {
                    assert(!same_record(d[i].hit, d[j].hit));
                }
            } else {
                assert(!same_record(d[i].hit, d[j].hit));
            }
        }
        assert forall|k: int| 0 <= k < s.len() implies covered(e, #[trigger] s[k]) by {
            if k < front.len() {
                assert(front[k] == s[k]);
                assert(covered(d, front[k]));
                let i = choose|i: int| covers(d, i, front[k]);
                if i == p && !score_ge(d[p].score, x.score) {
                    assert(e[p] == x);
                    score_ge_transitive(x.score, d[p].score, s[k].score);
                    assert(covers(e, p, s[k]));
                } else {
                    assert(e[i] == d[i]);
                    assert(covers(e, i, s[k]));
                }
            } else {
                if p >= d.len() {
                    assert(covers(e, d.len() as int, x));
                } else {
                    assert(covers(e, p, x));
                }
            }
        }
        assert(all_rankable(e));
    }
}

proof fn lemma_scored(hits: Seq<HitView>, now: Timestamp)
    requires
        proper(hits),
    ensures
        all_rankable(scored(hits, now)),
        forall|i: int|
            0 <= i < hits.len() ==> (#[trigger] scored(hits, now)[i]) == (ScoredView {
                hit: hits[i],
                score: score_of(hits[i], now),
            }),
{
    assert forall|i: int| 0 <= i < hits.len() implies (#[trigger] scored(hits, now)[i]).rankable() by {
        scores_are_bounded(hits[i], now);
    }
}

/// The merged ranking holds hits of the input only, no two of them for the same
/// record of a layer, best first, and no more than asked for.
pub proof fn the_ranking_is_sound(hits: Seq<HitView>, max: u32, now: Timestamp)
    requires
        proper(hits),
    ensures
        merged(hits, max, now).len() <= max,
        merged(hits, max, now).len() <= hits.len(),
        forall|i: int|
            0 <= i < merged(hits, max, now).len() ==> hits.contains(
                #[trigger] merged(hits, max, now)[i],
            ),
        forall|i: int, j: int|
            0 <= i <= j < merged(hits, max, now).len() ==> score_ge(
                score_of(#[trigger] merged(hits, max, now)[i], now),
                score_of(#[trigger] merged(hits, max, now)[j], now),
            ),
        forall|i: int, j: int|
            0 <= i < merged(hits, max, now).len() && 0 <= j < merged(hits, max, now).len() && i != j
                ==> !same_record(
                #[trigger] merged(hits, max, now)[i],
                #[trigger] merged(hits, max, now)[j],
            ),
{
    broadcast use vstd::seq_lib::group_to_multiset_ensures;

    let s = scored(hits, now);
    lemma_scored(hits, now);
    lemma_best(s);
    let d = best_per_record(s);
    ranked_is_a_sorted_permutation(d);
    let r = ranked(d);
    let m = merged(hits, max, now);
    lemma_distinct_ranking(d);
    assert forall|i: int| 0 <= i < r.len() implies d.contains(#[trigger] r[i]) && hits.contains(
        r[i].hit,
    ) && r[i].score == score_of(r[i].hit, now) by {
        assert(r.contains(r[i]));
        assert(r.to_multiset().count(r[i]) > 0);
        assert(d.contains(r[i]));
        let k = choose|k: int| 0 <= k < d.len() && d[k] == r[i];
        assert(s.contains(d[k]));
        let n = choose|n: int| 0 <= n < s.len() && s[n] == d[k];
        assert(hits[n] == r[i].hit);
    }
    assert(forall|i: int| 0 <= i < m.len() ==> #[trigger] m[i] == r[i].hit);
    assert forall|i: int, j: int| 0 <= i <= j < m.len() implies score_ge(
        score_of(#[trigger] m[i], now),
        score_of(#[trigger] m[j], now),
    ) by {
        assert(r[i].ranks_before(r[j]));
    }
    assert forall|i: int, j: int| 0 <= i < m.len() && 0 <= j < m.len() && i != j implies !same_record(
        #[trigger] m[i],
        #[trigger] m[j],
    ) by {
        assert(!same_record(r[i].hit, r[j].hit));
    }
}

proof fn lemma_distinct_ranking(d: Seq<ScoredView>)
    requires
        all_rankable(d),
        forall|i: int, j: int|
            0 <= i < d.len() && 0 <= j < d.len() && i != j ==> !same_record(
                (#[trigger] d[i]).hit,
                (#[trigger] d[j]).hit,
            ),
    ensures
        forall|i: int, j: int|
            0 <= i < ranked(d).len() && 0 <= j < ranked(d).len() && i != j ==> !same_record(
                (#[trigger] ranked(d)[i]).hit,
                (#[trigger] ranked(d)[j]).hit,
            ),
{
    broadcast use vstd::seq_lib::group_to_multiset_ensures;

    ranked_is_a_sorted_permutation(d);
    let r = ranked(d);
    assert(d.no_duplicates()) by {
        assert forall|i: int, j: int| 0 <= i < d.len() && 0 <= j < d.len() && i != j implies d[i]
            != d[j] by {
            assert(!same_record(d[i].hit, d[j].hit));
        }
    }
    d.lemma_multiset_has_no_duplicates();
    assert forall|x: ScoredView| r.to_multiset().contains(x) implies r.to_multiset().count(x)
        == 1 by {
        assert(d.to_multiset().contains(x));
    }
    r.lemma_multiset_has_no_duplicates_conv();
    assert forall|i: int, j: int| 0 <= i < r.len() && 0 <= j < r.len() && i != j implies !same_record(
        (#[trigger] r[i]).hit,
        (#[trigger] r[j]).hit,
    ) by {
        assert(r.contains(r[i]) && r.contains(r[j]));
        assert(r.to_multiset().count(r[i]) > 0 && r.to_multiset().count(r[j]) > 0);
        assert(d.contains(r[i]) && d.contains(r[j]));
        let a = choose|a: int| 0 <= a < d.len() && d[a] == r[i];
        let b = choose|b: int| 0 <= b < d.len() && d[b] == r[j];
        if a == b {
            assert(r[i] == r[j]);
            assert(false);
        }
        assert(!same_record(d[a].hit, d[b].hit));
    }
}

/// Nothing better is left out: a hit of the input is either covered by a hit
/// for the same record that is at least as good, or the ranking is full of hits
/// that are at least as good.
pub proof fn the_ranking_is_complete(hits: Seq<HitView>, max: u32, now: Timestamp, k: int)
    requires
        proper(hits),
        0 <= k < hits.len(),
    ensures
        (exists|i: int|
            0 <= i < merged(hits, max, now).len() && same_record(
                #[trigger] merged(hits, max, now)[i],
                hits[k],
            ) && score_ge(score_of(merged(hits, max, now)[i], now), score_of(hits[k], now))) || (
        merged(hits, max, now).len() == max && forall|i: int|
            0 <= i < max ==> score_ge(
                score_of(#[trigger] merged(hits, max, now)[i], now),
                score_of(hits[k], now),
            )),
{
    broadcast use vstd::seq_lib::group_to_multiset_ensures;

    let s = scored(hits, now);
    lemma_scored(hits, now);
    lemma_best(s);
    let d = best_per_record(s);
    ranked_is_a_sorted_permutation(d);
    let r = ranked(d);
    let m = merged(hits, max, now);
    assert(s[k].hit == hits[k]);
    assert(covered(d, s[k]));
    let j = choose|j: int| covers(d, j, s[k]);
    assert(d.contains(d[j]));
    assert(d.to_multiset().count(d[j]) > 0);
    assert(r.contains(d[j]));
    let p = choose|p: int| 0 <= p < r.len() && r[p] == d[j];
    assert forall|i: int| 0 <= i < r.len() implies (#[trigger] r[i]).score == score_of(
        r[i].hit,
        now,
    ) && r[i].rankable() by {
        assert(r.contains(r[i]));
        assert(r.to_multiset().count(r[i]) > 0);
        assert(d.contains(r[i]));
        let q = choose|q: int| 0 <= q < d.len() && d[q] == r[i];
        assert(s.contains(d[q]));
        let n = choose|n: int| 0 <= n < s.len() && s[n] == d[q];
        assert(hits[n] == r[i].hit);
    }
    if p < m.len() {
        assert(m[p] == r[p].hit);
    } else {
        assert(m.len() == max);
        assert forall|i: int| 0 <= i < max implies score_ge(
            score_of(#[trigger] m[i], now),
            score_of(hits[k], now),
        ) by {
            assert(m[i] == r[i].hit);
            assert(r[i].ranks_before(r[p]));
            score_ge_transitive(r[i].score, r[p].score, s[k].score);
        }
    }
}

/// What two hits have in common that stand for one record: the layer and the id.
pub proof fn a_record_has_a_layer_and_an_id(a: HitView, b: HitView)
    ensures
        same_record(a, b) <==> a.layer == b.layer && a.record_id == b.record_id,
{
}

/// The score of a hit is the product of its relevance, its recency and its
/// importance, which counts between nothing and all.
pub proof fn a_score_is_a_product(hit: HitView, now: Timestamp)
    requires
        hit.relevance.wf(),
    ensures
        ({
            let importance: int = if hit.importance.millionths < 0 {
                0
            } else if hit.importance.millionths > 1_000_000 {
                1_000_000
            } else {
                hit.importance.millionths as int
            };
            let recent = recency(hit.valid_time, now);
            &&& score_of(hit, now).numerator == hit.relevance.num * recent.num * importance
            &&& score_of(hit, now).denominator == hit.relevance.den * recent.den
        }),
{
    scores_are_bounded(hit, now);
    let recent = recency(hit.valid_time, now);
    recency_is_bounded(hit.valid_time, now);
    lemma_score_parts(
        hit.relevance.num as int,
        hit.relevance.den as int,
        recent.num as int,
        recent.den as int,
        hit.importance.clamped_spec().millionths as int,
    );
}

/// Scores are compared as the numbers that they are.
pub proof fn scores_compare_as_numbers(a: Score, b: Score)
    ensures
        score_ge(a, b) <==> a.numerator * b.denominator >= b.numerator * a.denominator,
{
}

/// A record of whole minutes' age counts as thirty days by thirty days and its
/// age, but no less than a tenth.
pub proof fn recency_goes_by_age(t: Timestamp, now: Timestamp)
    ensures
        ({
            let minutes = minutes_between(t, now);
            let r = recency(t, now);
            &&& minutes <= 0 ==> r.num == r.den
            &&& 0 < minutes <= 9 * 43_200 ==> r.num * (43_200 + minutes) == 43_200 * r.den
            &&& minutes >= 9 * 43_200 ==> 10 * r.num == r.den
        }),
{
    let minutes = minutes_between(t, now);
    if 0 < minutes < 9 * 43_200 {
        assert(recency(t, now).den == 43_200 + minutes);
    }
}

/// Not a single hit is lost where there is room for all of them: with as many
/// places as hits, each record has one.
pub proof fn with_room_for_all_none_is_lost(hits: Seq<HitView>, max: u32, now: Timestamp, k: int)
    requires
        proper(hits),
        0 <= k < hits.len() < max,
    ensures
        exists|i: int|
            0 <= i < merged(hits, max, now).len() && (#[trigger] merged(hits, max, now)[i]).layer
                == hits[k].layer && merged(hits, max, now)[i].record_id == hits[k].record_id,
{
    the_ranking_is_sound(hits, max, now);
    the_ranking_is_complete(hits, max, now, k);
}

} // verus!

//! Stable sorting, and the order of texts.
use vstd::prelude::*;
use crate::text::chars_of;

verus! {

/// A total preorder that a list can be sorted by.
pub trait Rank: Sized {
    /// The value can be compared with others.
    spec fn rankable(self) -> bool;

    /// `self` may stand before `other`.
    spec fn ranks_before(self, other: Self) -> bool;

    /// Two values can always be put in some order.
    proof fn rank_is_total(self, other: Self)
        requires
            self.rankable(),
            other.rankable(),
        ensures
            self.ranks_before(other) || other.ranks_before(self),
    ;

    /// The order carries over.
    proof fn rank_is_transitive(self, mid: Self, other: Self)
        requires
            self.rankable(),
            mid.rankable(),
            other.rankable(),
            self.ranks_before(mid),
            mid.ranks_before(other),
        ensures
            self.ranks_before(other),
    ;
}

/// A total preorder that can be computed.
pub trait Ranked: Rank {
    /// Whether `self` may stand before `other`.
    fn may_precede(&self, other: &Self) -> (r: bool)
        requires
            self.rankable(),
            other.rankable(),
        ensures
            r == self.ranks_before(*other),
    ;
}

/// Every element of `s` can be compared with the others.
pub open spec fn all_rankable<T: Rank>(s: Seq<T>) -> bool {
    forall|i: int| 0 <= i < s.len() ==> (#[trigger] s[i]).rankable()
}

/// `s` with `x` put in behind every element that may stand before it.
pub open spec fn ranked_insert<T: Rank>(s: Seq<T>, x: T) -> Seq<T>
    decreases s.len(),
{
    if s.len() == 0 || s.last().ranks_before(x) {
        s.push(x)
    } else {
        ranked_insert(s.drop_last(), x).push(s.last())
    }
}

/// `s` in ascending rank; elements of equal rank keep their order.
pub open spec fn ranked<T: Rank>(s: Seq<T>) -> Seq<T>
    decreases s.len(),
{
    if s.len() == 0 {
        s
    } else {
        ranked_insert(ranked(s.drop_last()), s.last())
    }
}

/// No element of `s` has to stand before an earlier one.
pub open spec fn in_rank_order<T: Rank>(s: Seq<T>) -> bool {
    forall|i: int, j: int| 0 <= i <= j < s.len() ==> (#[trigger] s[i]).ranks_before(#[trigger] s[j])
}

proof fn lemma_insert<T: Rank>(s: Seq<T>, x: T)
    requires
        in_rank_order(s),
        all_rankable(s),
        x.rankable(),
    ensures
        in_rank_order(ranked_insert(s, x)),
        all_rankable(ranked_insert(s, x)),
        ranked_insert(s, x).to_multiset() == s.to_multiset().insert(x),
        ranked_insert(s, x).len() == s.len() + 1,
    decreases s.len(),
{
    broadcast use vstd::seq_lib::group_to_multiset_ensures;

    x.rank_is_total(x);
    if s.len() == 0 {
    } else if s.last().ranks_before(x) {
        let r = s.push(x);
        assert forall|i: int, j: int| 0 <= i <= j < r.len() implies (#[trigger] r[i]).ranks_before(
            #[trigger] r[j],
        ) by {
            if j == s.len() && i < s.len() {
                assert(s[i].ranks_before(s[s.len() - 1]));
                s[i].rank_is_transitive(s.last(), x);
            }
        }
    } else {
        let front = s.drop_last();
        assert(in_rank_order(front));
        lemma_insert(front, x);
        let inner = ranked_insert(front, x);
        let r = inner.push(s.last());
        assert(s == front.push(s.last()));
        assert(inner.to_multiset() == front.to_multiset().insert(x));
        assert(r.to_multiset() =~= s.to_multiset().insert(x));
        x.rank_is_total(s.last());
        assert forall|i: int, j: int| 0 <= i <= j < r.len() implies (#[trigger] r[i]).ranks_before(
            #[trigger] r[j],
        ) by {
            if j == inner.len() {
                if i < inner.len() {
                    assert(inner.to_multiset().count(inner[i]) > 0) by {
                        assert(inner.contains(inner[i]));
                    }
                    if inner[i] != x {
                        assert(front.to_multiset().count(inner[i]) > 0);
                        assert(front.contains(inner[i]));
                        let k = choose|k: int| 0 <= k < front.len() && front[k] == inner[i];
                        assert(s[k].ranks_before(s[s.len() - 1]));
                    }
                } else {
                    s.last().rank_is_total(s.last());
                }
            }
        }
    }
}

/// Sorting puts a list in rank order and neither loses nor adds an element.
pub proof fn ranked_is_a_sorted_permutation<T: Rank>(s: Seq<T>)
    requires
        all_rankable(s),
    ensures
        all_rankable(ranked(s)),
        in_rank_order(ranked(s)),
        ranked(s).to_multiset() == s.to_multiset(),
        ranked(s).len() == s.len(),
    decreases s.len(),
{
    broadcast use vstd::seq_lib::group_to_multiset_ensures;

    if s.len() > 0 {
        ranked_is_a_sorted_permutation(s.drop_last());
        lemma_insert(ranked(s.drop_last()), s.last());
        assert(s == s.drop_last().push(s.last()));
    }
}

/// A list that is in rank order already stays as it is.
pub proof fn ranked_keeps_a_sorted_list<T: Rank>(s: Seq<T>)
    requires
        in_rank_order(s),
    ensures
        ranked(s) == s,
    decreases s.len(),
{
    if s.len() > 0 {
        let front = s.drop_last();
        assert(in_rank_order(front));
        ranked_keeps_a_sorted_list(front);
        if front.len() > 0 {
            assert(s[s.len() - 2].ranks_before(s[s.len() - 1]));
        }
        assert(front.push(s.last()) == s);
    }
}

/// Every element of a sorted list comes from the list, and the other way round.
pub proof fn ranked_keeps_membership<T: Rank>(s: Seq<T>, x: T)
    requires
        all_rankable(s),
    ensures
        ranked(s).contains(x) <==> s.contains(x),
{
    broadcast use vstd::seq_lib::group_to_multiset_ensures;

    ranked_is_a_sorted_permutation(s);
    assert(ranked(s).to_multiset().count(x) == s.to_multiset().count(x));
}

proof fn lemma_insert_keeps_rankable<T: Rank>(s: Seq<T>, x: T)
    requires
        all_rankable(s),
        x.rankable(),
    ensures
        all_rankable(ranked_insert(s, x)),
    decreases s.len(),
{
    if s.len() > 0 && !s.last().ranks_before(x) {
        let front = s.drop_last();
        assert(all_rankable(front));
        lemma_insert_keeps_rankable(front, x);
        assert(s[s.len() - 1].rankable());
    }
}

/// Sorting commutes with a function that keeps the order.
pub proof fn ranked_commutes<T: Rank, U: Rank>(s: Seq<T>, f: spec_fn(T) -> U)
    requires
        forall|a: T, b: T| #[trigger] a.ranks_before(b) == f(a).ranks_before(f(b)),
    ensures
        ranked(s).map_values(f) == ranked(s.map_values(f)),
    decreases s.len(),
{
    let t = s.map_values(f);
    if s.len() > 0 {
        ranked_commutes(s.drop_last(), f);
        assert(t.drop_last() =~= s.drop_last().map_values(f));
        lemma_insert_commutes(ranked(s.drop_last()), s.last(), f);
    } else {
        assert(ranked(s).map_values(f) =~= ranked(t));
    }
}

proof fn lemma_insert_commutes<T: Rank, U: Rank>(s: Seq<T>, x: T, f: spec_fn(T) -> U)
    requires
        forall|a: T, b: T| #[trigger] a.ranks_before(b) == f(a).ranks_before(f(b)),
    ensures
        ranked_insert(s, x).map_values(f) == ranked_insert(s.map_values(f), f(x)),
    decreases s.len(),
{
    let t = s.map_values(f);
    if s.len() == 0 || s.last().ranks_before(x) {
        assert(s.push(x).map_values(f) =~= t.push(f(x)));
    } else {
        let front = s.drop_last();
        lemma_insert_commutes(front, x, f);
        assert(t.drop_last() =~= front.map_values(f));
        assert(ranked_insert(front, x).push(s.last()).map_values(f) =~= ranked_insert(
            front,
            x,
        ).map_values(f).push(f(s.last())));
    }
}

fn insert_ranked<T: Ranked>(v: &mut Vec<T>, x: T)
    requires
        all_rankable(old(v)@),
        x.rankable(),
    ensures
        final(v)@ == ranked_insert(old(v)@, x),
{
    let ghost start = v@;
    let mut i: usize = v.len();
    assert(start.take(i as int) == start);
    assert(start.skip(i as int) == Seq::<T>::empty());
    assert(ranked_insert(start, x) + Seq::<T>::empty() == ranked_insert(start, x));
    while i > 0 && !v[i - 1].may_precede(&x)
        invariant
            v@ == start,
            all_rankable(start),
            x.rankable(),
            i <= start.len(),
            ranked_insert(start.take(i as int), x) + start.skip(i as int) == ranked_insert(start, x),
        decreases i,
    {
        let ghost here = start.take(i as int);
        assert(here.last() == start[i - 1]);
        assert(here.drop_last() == start.take(i - 1));
        let ghost inner = ranked_insert(start.take(i - 1), x);
        assert(inner.push(start[i - 1]) + start.skip(i as int) == inner + start.skip(i - 1));
        i = i - 1;
    }
    proof {
        let here = start.take(i as int);
        if i > 0 {
            assert(here.last() == start[i - 1]);
        }
        assert(here.push(x) + start.skip(i as int) == start.insert(i as int, x));
    }
    v.insert(i, x);
}

/// Sorts `v` by rank; elements of equal rank keep their order.
pub fn sort_ranked<T: Ranked>(v: Vec<T>) -> (r: Vec<T>)
    requires
        all_rankable(v@),
    ensures
        r@ == ranked(v@),
{
    let ghost all = v@;
    let mut rest = v;
    let mut out: Vec<T> = Vec::new();
    assert(all.skip(0) == all);
    assert(ranked(all.take(0)) == out@);
    let ghost mut done: int = 0;
    while rest.len() > 0
        invariant
            0 <= done <= all.len(),
            rest@ == all.skip(done),
            all_rankable(all),
            all_rankable(out@),
            out@ == ranked(all.take(done)),
        decreases rest@.len(),
    {
        let x = rest.remove(0);
        assert(rest@ == all.skip(done + 1));
        assert(all.take(done + 1).drop_last() == all.take(done));
        assert(all.take(done + 1).last() == x);
        proof {
            assert(all[done] == x);
            lemma_insert_keeps_rankable(out@, x);
        }
        insert_ranked(&mut out, x);
        proof {
            done = done + 1;
        }
    }
    assert(all.take(done) == all);
    out
}

// --- The order of texts ------------------------------------------------------

/// The order of texts by their code points: the first differing character
/// decides, and a prefix stands before the longer text.
pub open spec fn text_le(a: Seq<char>, b: Seq<char>) -> bool
    decreases a.len(),
{
    if a.len() == 0 {
        true
    } else if b.len() == 0 {
        false
    } else if a[0] != b[0] {
        (a[0] as int) < (b[0] as int)
    } else {
        text_le(a.drop_first(), b.drop_first())
    }
}

/// The order of texts is total.
pub proof fn text_le_total(a: Seq<char>, b: Seq<char>)
    ensures
        text_le(a, b) || text_le(b, a),
    decreases a.len(),
{
    if a.len() > 0 && b.len() > 0 && a[0] == b[0] {
        text_le_total(a.drop_first(), b.drop_first());
    }
}

/// The order of texts carries over.
pub proof fn text_le_transitive(a: Seq<char>, b: Seq<char>, c: Seq<char>)
    requires
        text_le(a, b),
        text_le(b, c),
    ensures
        text_le(a, c),
    decreases a.len(),
{
    if a.len() > 0 && b.len() > 0 && c.len() > 0 && a[0] == b[0] && b[0] == c[0] {
        text_le_transitive(a.drop_first(), b.drop_first(), c.drop_first());
    }
}

/// Texts that stand before each other are equal.
pub proof fn text_le_antisymmetric(a: Seq<char>, b: Seq<char>)
    requires
        text_le(a, b),
        text_le(b, a),
    ensures
        a == b,
    decreases a.len(),
{
    if a.len() > 0 && b.len() > 0 {
        assert(a[0] == b[0]);
        text_le_antisymmetric(a.drop_first(), b.drop_first());
        assert(a == seq![a[0]] + a.drop_first());
        assert(b == seq![b[0]] + b.drop_first());
    } else {
        assert(a == b);
    }
}

/// Whether `a` stands before `b`, or is equal to it.
pub fn is_text_le(a: &str, b: &str) -> (r: bool)
    ensures
        r == text_le(a@, b@),
{
    let x = chars_of(a);
    let y = chars_of(b);
    let mut i: usize = 0;
    assert(x@.skip(0) == x@ && y@.skip(0) == y@);
    while i < x.len() && i < y.len()
        invariant
            x@ == a@,
            y@ == b@,
            i <= x@.len(),
            i <= y@.len(),
            text_le(x@.skip(i as int), y@.skip(i as int)) == text_le(a@, b@),
        decreases x@.len() - i,
    {
        assert(x@.skip(i as int)[0] == x@[i as int]);
        assert(y@.skip(i as int)[0] == y@[i as int]);
        assert(x@.skip(i as int).drop_first() == x@.skip(i + 1));
        assert(y@.skip(i as int).drop_first() == y@.skip(i + 1));
        if x[i] != y[i] {
            let p: char = x[i];
            let q: char = y[i];
            return p < q;
        }
        i = i + 1;
    }
    i == x.len()
}

impl Rank for String {
    open spec fn rankable(self) -> bool {
        true
    }

    open spec fn ranks_before(self, other: Self) -> bool {
        text_le(self@, other@)
    }

    proof fn rank_is_total(self, other: Self) {
        text_le_total(self@, other@);
    }

    proof fn rank_is_transitive(self, mid: Self, other: Self) {
        text_le_transitive(self@, mid@, other@);
    }
}

impl Ranked for String {
    fn may_precede(&self, other: &Self) -> (r: bool) {
        is_text_le(self.as_str(), other.as_str())
    }
}

/// A text stands before another where it is the start of the other, or where the
/// first character in which they differ has the lower code point.
pub proof fn the_first_difference_decides(a: Seq<char>, b: Seq<char>)
    ensures
        text_le(a, b) <==> a.is_prefix_of(b) || exists|i: int|
            0 <= i < a.len() && i < b.len() && (#[trigger] a[i] as int) < b[i] as int && a.take(i)
                == b.take(i),
    decreases a.len(),
{
    if a.len() == 0 {
        assert(a =~= b.take(0));
    } else if b.len() == 0 {
    } else if a[0] != b[0] {
        if text_le(a, b) {
            assert(a.take(0) =~= b.take(0));
            assert((a[0] as int) < b[0] as int);
        } else {
            if a.is_prefix_of(b) {
                assert(a[0] == b.take(a.len() as int)[0]);
            }
            if exists|i: int|
                0 <= i < a.len() && i < b.len() && (#[trigger] a[i] as int) < b[i] as int
                    && a.take(i) == b.take(i) {
                let i = choose|i: int|
                    0 <= i < a.len() && i < b.len() && (#[trigger] a[i] as int) < b[i] as int
                        && a.take(i) == b.take(i);
                if i > 0 {
                    assert(a.take(i)[0] == a[0] && b.take(i)[0] == b[0]);
                }
            }
        }
    } else {
        let x = a.drop_first();
        let y = b.drop_first();
        the_first_difference_decides(x, y);
        assert(a.is_prefix_of(b) <==> x.is_prefix_of(y)) by {
            if a.is_prefix_of(b) {
                assert(x =~= y.take(x.len() as int)) by {
                    assert forall|k: int| 0 <= k < x.len() implies x[k] == y.take(
                        x.len() as int,
                    )[k] by {
                        assert(a[k + 1] == b.take(a.len() as int)[k + 1]);
                    }
                }
            }
            if x.is_prefix_of(y) {
                assert(a =~= b.take(a.len() as int)) by {
                    assert forall|k: int| 0 <= k < a.len() implies a[k] == b.take(
                        a.len() as int,
                    )[k] by {
                        if k > 0 {
                            assert(x[k - 1] == y.take(x.len() as int)[k - 1]);
                        }
                    }
                }
            }
        }
        if exists|i: int|
            0 <= i < x.len() && i < y.len() && (#[trigger] x[i] as int) < y[i] as int && x.take(i)
                == y.take(i) {
            let i = choose|i: int|
                0 <= i < x.len() && i < y.len() && (#[trigger] x[i] as int) < y[i] as int
                    && x.take(i) == y.take(i);
            assert(a.take(i + 1) =~= seq![a[0]] + x.take(i));
            assert(b.take(i + 1) =~= seq![b[0]] + y.take(i));
            assert((a[i + 1] as int) < b[i + 1] as int);
        }
        if exists|i: int|
            0 <= i < a.len() && i < b.len() && (#[trigger] a[i] as int) < b[i] as int && a.take(i)
                == b.take(i) {
            let i = choose|i: int|
                0 <= i < a.len() && i < b.len() && (#[trigger] a[i] as int) < b[i] as int
                    && a.take(i) == b.take(i);
            assert(i > 0);
            assert(x.take(i - 1) =~= a.take(i).drop_first());
            assert(y.take(i - 1) =~= b.take(i).drop_first());
            assert((x[i - 1] as int) < y[i - 1] as int);
        }
    }
}

} // verus!

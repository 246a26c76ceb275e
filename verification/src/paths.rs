//! Slash-separated paths, as texts.
use vstd::prelude::*;
use crate::text::{chars_of, text_of};
use crate::words::{
    find_runs, is_run, runs, runs_are_the_maximal_stretches, runs_from, span_view,
    the_maximal_stretches_are_the_runs, WordClass,
};

verus! {

/// The run `p[r.0..r.1]` names a component: a single dot does so only at the
/// very start of the path.
pub open spec fn names_component(p: Seq<char>, r: (int, int)) -> bool {
    r.0 == 0 || p.subrange(r.0, r.1) != seq!['.']
}

/// The positions behind the components among `spans`.
pub open spec fn ends_of(p: Seq<char>, spans: Seq<(int, int)>) -> Seq<int>
    decreases spans.len(),
{
    if spans.len() == 0 {
        Seq::empty()
    } else {
        let front = ends_of(p, spans.drop_last());
        if names_component(p, spans.last()) {
            front.push(spans.last().1)
        } else {
            front
        }
    }
}

/// The positions behind the path's components; the root, where the path has
/// one, comes first and ends behind its slash.
pub open spec fn component_ends(p: Seq<char>) -> Seq<int> {
    let named = ends_of(p, runs(p, WordClass::PathName));
    if p.len() > 0 && p[0] == '/' {
        seq![1int] + named
    } else {
        named
    }
}

/// The path without its last component; none where only a root, or nothing, is
/// left to take away.
pub open spec fn parent(p: Seq<char>) -> Option<Seq<char>> {
    let ends = component_ends(p);
    let rooted = p.len() > 0 && p[0] == '/';
    if ends.len() == 0 || (rooted && ends.len() == 1) {
        None
    } else if ends.len() == 1 {
        Some(Seq::empty())
    } else {
        Some(p.take(ends[ends.len() - 2]))
    }
}

proof fn lemma_ends_ascend(p: Seq<char>, n: int)
    requires
        0 <= n <= runs(p, WordClass::PathName).len(),
    ensures
        ({
            let spans = runs(p, WordClass::PathName);
            let ends = ends_of(p, spans.take(n));
            &&& forall|i: int, j: int|
                0 <= i < j < ends.len() ==> (#[trigger] ends[i]) < (#[trigger] ends[j])
            &&& forall|i: int|
                0 <= i < ends.len() ==> 0 < (#[trigger] ends[i]) <= spans[n - 1].1 && (p[0] == '/'
                    ==> 1 < ends[i])
        }),
    decreases n,
{
    let spans = runs(p, WordClass::PathName);
    if n > 0 {
        runs_are_the_maximal_stretches(p, WordClass::PathName);
        lemma_ends_ascend(p, n - 1);
        assert(spans.take(n).drop_last() == spans.take(n - 1));
        assert(spans.take(n).last() == spans[n - 1]);
        let last = spans[n - 1];
        assert(is_run(p, WordClass::PathName, last.0, last.1));
        if p[0] == '/' && last.0 == 0 {
            assert(WordClass::PathName.has(p[0]));
        }
        let front = ends_of(p, spans.take(n - 1));
        if n > 1 {
            assert(spans[n - 2].1 < spans[n - 1].0);
        } else {
            assert(front.len() == 0);
        }
        assert forall|i: int| 0 <= i < front.len() implies 0 < #[trigger] front[i] < last.1 by {
            assert(front[i] <= spans[n - 2].1);
        }
        if names_component(p, last) {
            assert(ends_of(p, spans.take(n)) == front.push(last.1));
        }
    }
}

/// Going up always ends: a path's parent is shorter than the path.
pub proof fn a_parent_is_shorter(p: Seq<char>)
    requires
        parent(p) is Some,
    ensures
        parent(p)->0.len() < p.len(),
{
    let spans = runs(p, WordClass::PathName);
    let n = spans.len() as int;
    assert(spans.take(n) == spans);
    lemma_ends_ascend(p, n);
    runs_are_the_maximal_stretches(p, WordClass::PathName);
    let named = ends_of(p, spans);
    let ends = component_ends(p);
    assert(n > 0);
    assert(is_run(p, WordClass::PathName, spans[n - 1].0, spans[n - 1].1));
    if ends.len() >= 2 {
        let k = ends.len() - 2;
        if p[0] == '/' {
            assert(ends[k + 1] == named[k]);
            if k > 0 {
                assert(ends[k] == named[k - 1]);
            }
        } else {
            assert(ends[k] == named[k] && ends[k + 1] == named[k + 1]);
        }
        assert(0 < ends[k] < ends[k + 1] <= p.len());
    }
}

/// The relative path `name` below `base`.
pub open spec fn below(base: Seq<char>, name: Seq<char>) -> Seq<char> {
    if base.len() == 0 || base.last() == '/' {
        base + name
    } else {
        base + "/"@ + name
    }
}

fn is_lone_dot(chars: &Vec<char>, from: usize, to: usize) -> (r: bool)
    requires
        from < to <= chars@.len(),
    ensures
        r == (chars@.subrange(from as int, to as int) == seq!['.']),
{
    let ghost part = chars@.subrange(from as int, to as int);
    assert(part.len() == to - from);
    assert(part[0] == chars@[from as int]);
    assert(to - from == 1 && part[0] == '.' ==> part =~= seq!['.']);
    to - from == 1 && chars[from] == '.'
}

/// The path without its last component.
pub fn parent_path(path: &str) -> (r: Option<String>)
    ensures
        r.deep_view() == parent(path@),
{
    let chars = chars_of(path);
    let spans = find_runs(&chars, WordClass::PathName);
    let ghost spans_v = spans@.map_values(|p: (usize, usize)| span_view(p));
    let rooted = chars.len() > 0 && chars[0] == '/';
    let mut ends: Vec<usize> = Vec::new();
    if rooted {
        ends.push(1);
    }
    let ghost ends_v = |v: Seq<usize>| v.map_values(|e: usize| e as int);
    let ghost lead = if rooted {
        seq![1int]
    } else {
        Seq::<int>::empty()
    };
    assert(ends_v(ends@) =~= lead + ends_of(path@, spans_v.take(0)));
    let mut i: usize = 0;
    while i < spans.len()
        invariant
            i <= spans@.len(),
            chars@ == path@,
            spans_v == spans@.map_values(|p: (usize, usize)| span_view(p)),
            forall|m: int|
                0 <= m < spans@.len() ==> (#[trigger] spans@[m]).0 < spans@[m].1 <= chars@.len(),
            ends_v(ends@) == lead + ends_of(path@, spans_v.take(i as int)),
            ends_v == (|v: Seq<usize>| v.map_values(|e: usize| e as int)),
            forall|m: int| 0 <= m < ends@.len() ==> (#[trigger] ends@[m]) <= chars@.len(),
        decreases spans@.len() - i,
    {
        let (from, to) = spans[i];
        let ghost front = spans_v.take(i as int);
        assert(spans_v.take(i + 1).drop_last() == front);
        assert(spans_v.take(i + 1).last() == span_view(spans@[i as int]));
        if from == 0 || !is_lone_dot(&chars, from, to) {
            let ghost before = ends@;
            ends.push(to);
            assert(ends_v(ends@) =~= ends_v(before).push(to as int));
            assert(ends_v(ends@) =~= lead + ends_of(path@, front).push(to as int));
        }
        i = i + 1;
    }
    assert(spans_v.take(i as int) == spans_v);
    assert(ends_v(ends@) == component_ends(path@));
    let n: usize = ends.len();
    assert(n == component_ends(path@).len());
    if n == 0 || (rooted && n == 1) {
        None
    } else if n == 1 {
        Some(String::new())
    } else {
        assert(ends_v(ends@)[n - 2] == ends@[n - 2]);
        let end: usize = ends[n - 2];
        assert(chars@.subrange(0, end as int) == path@.take(end as int));
        Some(text_of(&chars, 0, end))
    }
}

/// The relative path `name` below `base`.
pub fn join_path(base: &str, name: &str) -> (r: String)
    ensures
        r@ == below(base@, name@),
{
    let chars = chars_of(base);
    let n: usize = chars.len();
    if n == 0 || chars[n - 1] == '/' {
        base.to_owned().concat(name)
    } else {
        base.to_owned().concat("/").concat(name)
    }
}

proof fn lemma_runs_below(base: Seq<char>, name: Seq<char>)
    requires
        name.len() > 0,
        !name.contains('/'),
    ensures
        runs(base + seq!['/'] + name, WordClass::PathName) == runs(
            base,
            WordClass::PathName,
        ).push(((base.len() + 1) as int, (base.len() + 1 + name.len()) as int)),
{
    let class = WordClass::PathName;
    let p = base + seq!['/'] + name;
    let b = base.len() as int;
    let n = p.len() as int;
    let before = runs(base, class);
    let spans = before.push((b + 1, n));
    runs_are_the_maximal_stretches(base, class);
    assert(p[b] == '/');
    assert forall|k: int| b < k < n implies p[k] != '/' by {
        assert(p[k] == name[k - b - 1]);
        assert(name.contains(name[k - b - 1]));
    }
    assert forall|k: int| 0 <= k < b implies p[k] == base[k] by {}
    assert(is_run(p, class, b + 1, n));
    assert forall|i: int, j: int| is_run(base, class, i, j) implies is_run(p, class, i, j) by {
        assert forall|k: int| i <= k < j implies class.has(#[trigger] p[k]) by {
            assert(class.has(base[k]));
        }
    }
    assert forall|i: int, j: int| #[trigger] is_run(p, class, i, j) implies spans.contains(
        (i, j),
    ) by {
        if i <= b < j {
            assert(class.has(p[b]));
        }
        if j <= b {
            assert forall|k: int| i <= k < j implies class.has(#[trigger] base[k]) by {
                assert(class.has(p[k]));
            }
            assert(is_run(base, class, i, j));
            assert(before.contains((i, j)));
            let m = choose|m: int| 0 <= m < before.len() && before[m] == (i, j);
            assert(spans[m] == (i, j));
        } else {
            if i > b + 1 {
                assert(class.has(p[i - 1]));
            }
            if j < n {
                assert(class.has(p[j]));
            }
            assert(spans[before.len() as int] == (i, j));
        }
    }
    assert forall|m: int| 0 <= m < spans.len() implies is_run(
        p,
        class,
        (#[trigger] spans[m]).0,
        spans[m].1,
    ) by {
        if m < before.len() {
            assert(is_run(base, class, before[m].0, before[m].1));
        }
    }
    assert forall|m: int, k: int| 0 <= m < k < spans.len() implies (#[trigger] spans[m]).1 < (
    #[trigger] spans[k]).0 by {
        assert(is_run(base, class, before[m].0, before[m].1));
        if k < before.len() {
            assert(before[m].1 < before[k].0);
        }
    }
    the_maximal_stretches_are_the_runs(p, class, spans);
}

proof fn lemma_same_ends(base: Seq<char>, p: Seq<char>, spans: Seq<(int, int)>)
    requires
        base.is_prefix_of(p),
        forall|m: int|
            0 <= m < spans.len() ==> 0 <= (#[trigger] spans[m]).0 <= spans[m].1 <= base.len(),
    ensures
        ends_of(p, spans) == ends_of(base, spans),
    decreases spans.len(),
{
    if spans.len() > 0 {
        let front = spans.drop_last();
        assert forall|m: int| 0 <= m < front.len() implies 0 <= (#[trigger] front[m]).0
            <= front[m].1 <= base.len() by {
            assert(front[m] == spans[m]);
        }
        lemma_same_ends(base, p, front);
        let last = spans[spans.len() - 1];
        assert(p.subrange(last.0, last.1) =~= base.subrange(last.0, last.1));
    }
}

/// Going up undoes going down: the parent of a name below a path is that path,
/// unless the path ends in a slash or in a lone dot behind one; the parent of a
/// name below the root is the root, and that of a bare name is nothing.
pub proof fn going_up_undoes_going_down(base: Seq<char>, name: Seq<char>)
    requires
        name.len() > 0,
        !name.contains('/'),
        name != seq!['.'],
    ensures
        base.len() > 0 && base.last() != '/' && !(base.len() > 1 && base.last() == '.'
            && base[base.len() - 2] == '/') ==> parent(base + seq!['/'] + name) == Some(base),
        parent(seq!['/'] + name) == Some(seq!['/']),
        parent(name) == Some(Seq::<char>::empty()),
        parent(seq!['/']) is None,
        parent(Seq::empty()) is None,
{
    let class = WordClass::PathName;
    let none = Seq::<char>::empty();
    // A bare name.
    assert forall|k: int| 0 <= k < name.len() implies name[k] != '/' by {
        assert(name.contains(name[k]));
    }
    assert(is_run(name, class, 0, name.len() as int));
    let alone = seq![(0int, name.len() as int)];
    assert forall|i: int, j: int| #[trigger] is_run(name, class, i, j) implies alone.contains(
        (i, j),
    ) by {
        if i > 0 {
            assert(class.has(name[i - 1]));
        }
        if j < name.len() {
            assert(class.has(name[j]));
        }
        assert(alone[0] == (i, j));
    }
    the_maximal_stretches_are_the_runs(name, class, alone);
    assert(alone.drop_last() =~= Seq::<(int, int)>::empty());
    assert(ends_of(name, alone.drop_last()) =~= Seq::<int>::empty());
    assert(ends_of(name, alone) =~= seq![name.len() as int]);
    assert(component_ends(name) =~= seq![name.len() as int]);
    // Nothing, and the root.
    assert(component_ends(none) =~= Seq::<int>::empty());
    let root = seq!['/'];
    assert(runs_from(root, class, 1) =~= Seq::<(int, int)>::empty());
    assert(runs(root, class) =~= Seq::<(int, int)>::empty());
    assert(component_ends(root) =~= seq![1int]);
    // A name below the root.
    lemma_runs_below(none, name);
    let rooted = root + name;
    assert(none + seq!['/'] + name =~= rooted);
    assert(runs(none, class) =~= Seq::<(int, int)>::empty());
    let span = (1int, rooted.len() as int);
    assert(runs(rooted, class) =~= seq![span]);
    assert(rooted.subrange(1, rooted.len() as int) =~= name);
    assert(seq![span].drop_last() =~= Seq::<(int, int)>::empty());
    assert(ends_of(rooted, seq![span].drop_last()) =~= Seq::<int>::empty());
    assert(ends_of(rooted, seq![span]) =~= seq![rooted.len() as int]);
    assert(component_ends(rooted) =~= seq![1int, rooted.len() as int]);
    assert(rooted.take(1) =~= root);
    // A name below a path.
    if base.len() > 0 && base.last() != '/' && !(base.len() > 1 && base.last() == '.'
        && base[base.len() - 2] == '/') {
        let p = base + seq!['/'] + name;
        let b = base.len() as int;
        let spans = runs(base, class);
        lemma_runs_below(base, name);
        runs_are_the_maximal_stretches(base, class);
        lemma_last_run(base);
        let m = spans.len() - 1;
        assert(spans[m].1 == b);
        assert forall|k: int| 0 <= k < spans.len() implies 0 <= (#[trigger] spans[k]).0
            <= spans[k].1 <= base.len() by {
            assert(is_run(base, class, spans[k].0, spans[k].1));
        }
        lemma_same_ends(base, p, spans);
        let longer = spans.push((b + 1, p.len() as int));
        assert(longer.drop_last() =~= spans);
        assert(p.subrange(b + 1, p.len() as int) =~= name);
        assert(ends_of(p, longer) == ends_of(base, spans).push(p.len() as int));
        assert(is_run(base, class, spans[m].0, spans[m].1));
        if spans[m].0 > 0 {
            let word = base.subrange(spans[m].0, b);
            if word == seq!['.'] {
                assert(word.len() == 1);
                assert(word[0] == base[b - 1]);
                assert(!class.has(base[spans[m].0 - 1]));
            }
        }
        assert(names_component(base, spans[m]));
        assert(ends_of(base, spans).last() == b);
        assert(p[0] == base[0]);
        let ends = component_ends(p);
        assert(ends =~= component_ends(base).push(p.len() as int));
        assert(component_ends(base).last() == b);
        assert(p.take(b) =~= base);
    }
}

/// A path that does not end in a slash has a run at its end.
proof fn lemma_last_run(base: Seq<char>)
    requires
        base.len() > 0,
        base.last() != '/',
    ensures
        ({
            let spans = runs(base, WordClass::PathName);
            spans.len() > 0 && spans[spans.len() - 1].1 == base.len()
        }),
{
    let class = WordClass::PathName;
    let b = base.len() as int;
    let spans = runs(base, class);
    runs_are_the_maximal_stretches(base, class);
    let i = lemma_run_start(base, b - 1);
    assert(is_run(base, class, i, b));
    assert(spans.contains((i, b)));
    let k = choose|k: int| 0 <= k < spans.len() && spans[k] == (i, b);
    if k < spans.len() - 1 {
        assert(spans[k].1 < spans[spans.len() - 1].0);
        assert(is_run(base, class, spans[spans.len() - 1].0, spans[spans.len() - 1].1));
    }
}

proof fn lemma_run_start(base: Seq<char>, k: int) -> (i: int)
    requires
        0 <= k < base.len(),
        base[k] != '/',
    ensures
        0 <= i <= k,
        forall|m: int| i <= m <= k ==> WordClass::PathName.has(#[trigger] base[m]),
        i == 0 || !WordClass::PathName.has(base[i - 1]),
    decreases k,
{
    if k == 0 || base[k - 1] == '/' {
        k
    } else {
        lemma_run_start(base, k - 1)
    }
}

/// A name below a path stands behind a slash, unless the path ends in one or is
/// empty.
pub proof fn a_slash_stands_between(base: Seq<char>, name: Seq<char>)
    ensures
        base.len() == 0 ==> below(base, name) == name,
        base.len() > 0 && base.last() == '/' ==> below(base, name) == base + name,
        base.len() > 0 && base.last() != '/' ==> below(base, name) == base + seq!['/'] + name,
{
    reveal_strlit("/");
    assert("/"@ =~= seq!['/']);
    assert(base.len() == 0 ==> base + name =~= name);
}

} // verus!

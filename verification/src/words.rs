//! Cutting a text into words and lines.
use vstd::prelude::*;
use crate::text::{alphanumeric, is_alphanumeric};

verus! {

/// A class of characters that words are made of.
#[derive(Clone, Copy, PartialEq, Eq, Structural)]
pub enum WordClass {
    /// Letters and numbers.
    Alphanumeric,
    /// Letters, numbers and the apostrophe.
    Name,
    /// Anything but the separators of an email's local part.
    LocalPart,
    /// Anything but the path separator.
    PathName,
    /// Anything but a full stop.
    Dotted,
}

impl WordClass {
    /// `c` belongs to the class.
    pub open spec fn has(self, c: char) -> bool {
        match self {
            WordClass::Alphanumeric => alphanumeric(c),
            WordClass::Name => alphanumeric(c) || c == '\'',
            WordClass::LocalPart => c != '.' && c != '_' && c != '-',
            WordClass::PathName => c != '/',
            WordClass::Dotted => c != '.',
        }
    }

    /// Whether `c` belongs to the class.
    pub fn contains(self, c: char) -> (r: bool)
        ensures
            r == self.has(c),
    {
        match self {
            WordClass::Alphanumeric => is_alphanumeric(c),
            WordClass::Name => is_alphanumeric(c) || c == '\'',
            WordClass::LocalPart => c != '.' && c != '_' && c != '-',
            WordClass::PathName => c != '/',
            WordClass::Dotted => c != '.',
        }
    }
}

/// `s[i..j]` is a maximal non-empty stretch of characters of the class.
pub open spec fn is_run(s: Seq<char>, class: WordClass, i: int, j: int) -> bool {
    &&& 0 <= i < j <= s.len()
    &&& forall|k: int| i <= k < j ==> class.has(#[trigger] s[k])
    &&& i == 0 || !class.has(s[i - 1])
    &&& j == s.len() || !class.has(s[j])
}

/// The first position at or after `i` that does not belong to the class.
pub open spec fn run_end(s: Seq<char>, class: WordClass, i: int) -> int
    decreases s.len() - i,
{
    if 0 <= i < s.len() && class.has(s[i]) {
        run_end(s, class, i + 1)
    } else {
        i
    }
}

/// The maximal runs of the class in `s` from position `i` on, left to right.
pub open spec fn runs_from(s: Seq<char>, class: WordClass, i: int) -> Seq<(int, int)>
    decreases s.len() - i,
{
    if i < 0 || i >= s.len() {
        Seq::empty()
    } else if !class.has(s[i]) {
        runs_from(s, class, i + 1)
    } else {
        let j = run_end(s, class, i);
        if j <= i || j > s.len() {
            Seq::empty()
        } else {
            seq![(i, j)] + runs_from(s, class, j)
        }
    }
}

/// The maximal runs of the class in `s`, left to right.
pub open spec fn runs(s: Seq<char>, class: WordClass) -> Seq<(int, int)> {
    runs_from(s, class, 0)
}

/// Where a run ends: behind its start, and everything between belongs to it.
pub proof fn lemma_run_end(s: Seq<char>, class: WordClass, i: int)
    requires
        0 <= i <= s.len(),
    ensures
        i <= run_end(s, class, i) <= s.len(),
        i < s.len() && class.has(s[i]) ==> i < run_end(s, class, i),
        forall|k: int| i <= k < run_end(s, class, i) ==> class.has(#[trigger] s[k]),
        run_end(s, class, i) == s.len() || !class.has(s[run_end(s, class, i)]),
    decreases s.len() - i,
{
    if i < s.len() && class.has(s[i]) {
        lemma_run_end(s, class, i + 1);
    }
}

/// The runs of a class are exactly its maximal stretches, in order, and no two
/// of them touch.
pub proof fn runs_are_the_maximal_stretches(s: Seq<char>, class: WordClass)
    ensures
        forall|m: int|
            0 <= m < runs(s, class).len() ==> is_run(
                s,
                class,
                (#[trigger] runs(s, class)[m]).0,
                runs(s, class)[m].1,
            ),
        forall|m: int, n: int|
            0 <= m < n < runs(s, class).len() ==> (#[trigger] runs(s, class)[m]).1
                < (#[trigger] runs(s, class)[n]).0,
        forall|i: int, j: int|
            is_run(s, class, i, j) ==> runs(s, class).contains((i, j)),
{
    lemma_runs_from(s, class, 0);
}

proof fn lemma_runs_from(s: Seq<char>, class: WordClass, i: int)
    requires
        0 <= i <= s.len(),
        i == 0 || i == s.len() || !class.has(s[i - 1]) || !class.has(s[i]),
    ensures
        forall|m: int|
            0 <= m < runs_from(s, class, i).len() ==> i <= (#[trigger] runs_from(s, class, i)[m]).0
                && is_run(s, class, runs_from(s, class, i)[m].0, runs_from(s, class, i)[m].1),
        forall|m: int, n: int|
            0 <= m < n < runs_from(s, class, i).len() ==> (#[trigger] runs_from(s, class, i)[m]).1
                < (#[trigger] runs_from(s, class, i)[n]).0,
        forall|a: int, b: int|
            i <= a && is_run(s, class, a, b) ==> runs_from(s, class, i).contains((a, b)),
    decreases s.len() - i,
{
    if i < s.len() {
        if !class.has(s[i]) {
            lemma_runs_from(s, class, i + 1);
            let r = runs_from(s, class, i + 1);
            assert forall|a: int, b: int|
                i <= a && is_run(s, class, a, b) implies runs_from(s, class, i).contains((a, b)) by {
                assert(a != i);
            }
        } else {
            lemma_run_end(s, class, i);
            let j = run_end(s, class, i);
            lemma_runs_from(s, class, j);
            let rest = runs_from(s, class, j);
            let all = runs_from(s, class, i);
            assert(all == seq![(i, j)] + rest);
            assert(forall|m: int| 1 <= m < all.len() ==> #[trigger] all[m] == rest[m - 1]);
            assert forall|m: int| 0 <= m < rest.len() implies j < (#[trigger] rest[m]).0 by {
                assert(is_run(s, class, rest[m].0, rest[m].1));
                if rest[m].0 == j {
                    assert(class.has(s[j]));
                }
            }
            assert forall|a: int, b: int|
                i <= a && is_run(s, class, a, b) implies all.contains((a, b)) by {
                if a < j {
                    if a > i {
                        assert(class.has(s[a - 1]));
                    }
                    assert(a == i);
                    if b < j {
                        assert(class.has(s[b]));
                    }
                    if b > j {
                        assert(class.has(s[j]));
                    }
                    assert(all[0] == (a, b));
                } else {
                    assert(rest.contains((a, b)));
                    let m = choose|m: int| 0 <= m < rest.len() && rest[m] == (a, b);
                    assert(all[m + 1] == (a, b));
                }
            }
        }
    }
}

/// A run of characters, by its character positions.
pub open spec fn span_view(p: (usize, usize)) -> (int, int) {
    (p.0 as int, p.1 as int)
}

/// The runs of the class in `chars`, as character positions.
pub fn find_runs(chars: &Vec<char>, class: WordClass) -> (r: Vec<(usize, usize)>)
    ensures
        r@.map_values(|p: (usize, usize)| span_view(p)) == runs(chars@, class),
        forall|m: int| 0 <= m < r@.len() ==> (#[trigger] r@[m]).0 < r@[m].1 <= chars@.len(),
{
    let n: usize = chars.len();
    let mut out: Vec<(usize, usize)> = Vec::new();
    let mut i: usize = 0;
    proof {
        assert(out@.map_values(|p: (usize, usize)| span_view(p)) =~= Seq::<(int, int)>::empty());
    }
    while i < n
        invariant
            i <= n == chars@.len(),
            out@.map_values(|p: (usize, usize)| span_view(p)) + runs_from(chars@, class, i as int)
                == runs(chars@, class),
            forall|m: int| 0 <= m < out@.len() ==> (#[trigger] out@[m]).0 < out@[m].1 <= n,
        decreases n - i,
    {
        if class.contains(chars[i]) {
            proof {
                lemma_run_end(chars@, class, i as int);
            }
            let start: usize = i;
            i = i + 1;
            while i < n && class.contains(chars[i])
                invariant
                    start < i <= n == chars@.len(),
                    run_end(chars@, class, i as int) == run_end(chars@, class, start as int),
                decreases n - i,
            {
                i = i + 1;
            }
            let ghost before = out@.map_values(|p: (usize, usize)| span_view(p));
            let ghost rest = runs_from(chars@, class, i as int);
            assert(runs_from(chars@, class, start as int) == seq![(start as int, i as int)] + rest);
            out.push((start, i));
            assert(out@.map_values(|p: (usize, usize)| span_view(p)) == before.push(
                (start as int, i as int),
            ));
            assert(before.push((start as int, i as int)) + rest == before + (seq![
                (start as int, i as int),
            ] + rest));
        } else {
            i = i + 1;
        }
    }
    assert(out@.map_values(|p: (usize, usize)| span_view(p)) + runs_from(chars@, class, n as int)
        == out@.map_values(|p: (usize, usize)| span_view(p)));
    out
}

// --- Lines -------------------------------------------------------------------

/// The position of the first line feed at or after `i`, or the end.
pub open spec fn line_end(s: Seq<char>, i: int) -> int
    decreases s.len() - i,
{
    if 0 <= i < s.len() && s[i] != '\n' {
        line_end(s, i + 1)
    } else {
        i
    }
}

/// The line `s[i..e]`; where a line feed ends it, a carriage return before the
/// line feed belongs to the line's end.
pub open spec fn line_text(s: Seq<char>, i: int, e: int) -> Seq<char> {
    if e < s.len() && i < e && s[e - 1] == '\r' {
        s.subrange(i, e - 1)
    } else {
        s.subrange(i, e)
    }
}

/// The lines of `s` from position `i` on.
pub open spec fn lines_from(s: Seq<char>, i: int) -> Seq<Seq<char>>
    decreases s.len() - i,
{
    if i < 0 || i >= s.len() {
        Seq::empty()
    } else {
        let e = line_end(s, i);
        if i <= e < s.len() {
            seq![line_text(s, i, e)] + lines_from(s, e + 1)
        } else {
            seq![s.skip(i)]
        }
    }
}

/// The lines of `s`: cut behind each line feed, without their line endings.
pub open spec fn lines(s: Seq<char>) -> Seq<Seq<char>> {
    lines_from(s, 0)
}

/// The lines of `chars`, as character positions.
pub fn find_lines(chars: &Vec<char>) -> (r: Vec<(usize, usize)>)
    ensures
        r@.len() == lines(chars@).len(),
        forall|m: int|
            0 <= m < r@.len() ==> (#[trigger] r@[m]).0 <= r@[m].1 <= chars@.len()
                && chars@.subrange(r@[m].0 as int, r@[m].1 as int) == lines(chars@)[m],
{
    let n: usize = chars.len();
    let mut out: Vec<(usize, usize)> = Vec::new();
    let ghost mut done: Seq<Seq<char>> = Seq::empty();
    let mut i: usize = 0;
    while i < n
        invariant
            i <= n == chars@.len(),
            done + lines_from(chars@, i as int) == lines(chars@),
            out@.len() == done.len(),
            forall|m: int|
                0 <= m < out@.len() ==> (#[trigger] out@[m]).0 <= out@[m].1 <= n
                    && chars@.subrange(out@[m].0 as int, out@[m].1 as int) == done[m],
        decreases n - i,
    {
        let start: usize = i;
        let mut e: usize = i;
        while e < n && chars[e] != '\n'
            invariant
                start <= e <= n == chars@.len(),
                line_end(chars@, e as int) == line_end(chars@, start as int),
            decreases n - e,
        {
            e = e + 1;
        }
        assert(line_end(chars@, start as int) == e);
        let ghost line = line_text(chars@, start as int, e as int);
        let ghost rest = if e < n {
            lines_from(chars@, e + 1)
        } else {
            Seq::empty()
        };
        assert(chars@.skip(start as int) == chars@.subrange(start as int, n as int));
        assert(lines_from(chars@, start as int) == seq![line] + rest);
        assert(done.push(line) + rest == done + (seq![line] + rest));
        if e < n && start < e && chars[e - 1] == '\r' {
            out.push((start, e - 1));
        } else {
            out.push((start, e));
        }
        proof {
            done = done.push(line);
        }
        if e == n {
            i = n;
        } else {
            i = e + 1;
        }
    }
    assert(done + lines_from(chars@, n as int) == done);
    out
}

// --- Laws --------------------------------------------------------------------

/// The characters of each class.
pub proof fn what_words_are_made_of(c: char)
    ensures
        WordClass::Alphanumeric.has(c) <==> alphanumeric(c),
        WordClass::Name.has(c) <==> alphanumeric(c) || c == '\'',
        WordClass::LocalPart.has(c) <==> !(c == '.' || c == '_' || c == '-'),
        WordClass::PathName.has(c) <==> c != '/',
        WordClass::Dotted.has(c) <==> c != '.',
{
}

/// Spans that are the maximal stretches of a class, all of them and in order, are
/// its runs.
pub proof fn the_maximal_stretches_are_the_runs(
    s: Seq<char>,
    class: WordClass,
    spans: Seq<(int, int)>,
)
    requires
        forall|m: int| 0 <= m < spans.len() ==> is_run(s, class, (#[trigger] spans[m]).0, spans[m].1),
        forall|m: int, n: int|
            0 <= m < n < spans.len() ==> (#[trigger] spans[m]).1 < (#[trigger] spans[n]).0,
        forall|i: int, j: int| #[trigger] is_run(s, class, i, j) ==> spans.contains((i, j)),
    ensures
        spans == runs(s, class),
{
    runs_are_the_maximal_stretches(s, class);
    let all = runs(s, class);
    assert forall|x: (int, int)| #[trigger] spans.contains(x) <==> all.contains(x) by {
        if spans.contains(x) {
            let m = choose|m: int| 0 <= m < spans.len() && spans[m] == x;
            assert(is_run(s, class, spans[m].0, spans[m].1));
            assert(all.contains((x.0, x.1)));
        }
        if all.contains(x) {
            let m = choose|m: int| 0 <= m < all.len() && all[m] == x;
            assert(is_run(s, class, all[m].0, all[m].1));
            assert(spans.contains((x.0, x.1)));
        }
    }
    assert forall|m: int| 0 <= m < spans.len() implies (#[trigger] spans[m]).0 < spans[m].1 by {
        assert(is_run(s, class, spans[m].0, spans[m].1));
    }
    assert forall|m: int| 0 <= m < all.len() implies (#[trigger] all[m]).0 < all[m].1 by {
        assert(is_run(s, class, all[m].0, all[m].1));
    }
    lemma_ordered_spans(spans, all);
}

proof fn lemma_ordered_spans(a: Seq<(int, int)>, b: Seq<(int, int)>)
    requires
        forall|m: int| 0 <= m < a.len() ==> (#[trigger] a[m]).0 < a[m].1,
        forall|m: int| 0 <= m < b.len() ==> (#[trigger] b[m]).0 < b[m].1,
        forall|m: int, n: int| 0 <= m < n < a.len() ==> (#[trigger] a[m]).1 < (#[trigger] a[n]).0,
        forall|m: int, n: int| 0 <= m < n < b.len() ==> (#[trigger] b[m]).1 < (#[trigger] b[n]).0,
        forall|x: (int, int)| #[trigger] a.contains(x) <==> b.contains(x),
    ensures
        a == b,
    decreases a.len(),
{
    if a.len() == 0 {
        if b.len() > 0 {
            assert(b.contains(b[0]));
            assert(a.contains(b[0]));
        }
        assert(a =~= b);
    } else {
        assert(a.contains(a[a.len() - 1]));
        assert(b.contains(a.last()));
        let k = choose|k: int| 0 <= k < b.len() && b[k] == a.last();
        assert(b.contains(b[b.len() - 1]));
        assert(a.contains(b.last()));
        let j = choose|j: int| 0 <= j < a.len() && a[j] == b.last();
        if k < b.len() - 1 {
            assert(b[k].1 < b[b.len() - 1].0);
            if j < a.len() - 1 {
                assert(a[j].1 < a[a.len() - 1].0);
            }
        }
        assert(a.last() == b.last());
        let x = a.drop_last();
        let y = b.drop_last();
        assert forall|m: int, n: int| 0 <= m < n < x.len() implies (#[trigger] x[m]).1 < (
        #[trigger] x[n]).0 by {
            assert(a[m].1 < a[n].0);
        }
        assert forall|m: int, n: int| 0 <= m < n < y.len() implies (#[trigger] y[m]).1 < (
        #[trigger] y[n]).0 by {
            assert(b[m].1 < b[n].0);
        }
        assert forall|m: int| 0 <= m < x.len() implies (#[trigger] x[m]).0 < x[m].1 by {
            assert(a[m].0 < a[m].1);
        }
        assert forall|m: int| 0 <= m < y.len() implies (#[trigger] y[m]).0 < y[m].1 by {
            assert(b[m].0 < b[m].1);
        }
        assert forall|s: (int, int)| #[trigger] x.contains(s) <==> y.contains(s) by {
            if x.contains(s) {
                let m = choose|m: int| 0 <= m < x.len() && x[m] == s;
                assert(a[m].1 < a[a.len() - 1].0);
                assert(a[m] == s);
                assert(a.contains(s));
                assert(b.contains(s));
                let n = choose|n: int| 0 <= n < b.len() && b[n] == s;
                assert(y[n] == s);
            }
            if y.contains(s) {
                let m = choose|m: int| 0 <= m < y.len() && y[m] == s;
                assert(b[m].1 < b[b.len() - 1].0);
                assert(b[m] == s);
                assert(b.contains(s));
                assert(a.contains(s));
                let n = choose|n: int| 0 <= n < a.len() && a[n] == s;
                assert(x[n] == s);
            }
        }
        lemma_ordered_spans(x, y);
        assert(a =~= x.push(a.last()));
        assert(b =~= y.push(b.last()));
    }
}

proof fn lemma_line_end(s: Seq<char>, i: int, e: int)
    requires
        0 <= i <= e <= s.len(),
        forall|k: int| i <= k < e ==> s[k] != '\n',
        e == s.len() || s[e] == '\n',
    ensures
        line_end(s, i) == e,
    decreases e - i,
{
    if i < e {
        lemma_line_end(s, i + 1, e);
    }
}

proof fn lemma_lines_shift(a: Seq<char>, b: Seq<char>, i: int)
    requires
        0 <= i <= b.len(),
    ensures
        lines_from(a + b, a.len() + i) == lines_from(b, i),
    decreases b.len() - i,
{
    let s = a + b;
    let n = a.len() as int;
    if i < b.len() {
        lemma_line_bounds(b, i);
        let e = line_end(b, i);
        assert forall|k: int| n + i <= k < n + e implies s[k] != '\n' by {
            assert(s[k] == b[k - n]);
        }
        lemma_line_end(s, n + i, n + e);
        if e < b.len() {
            lemma_lines_shift(a, b, e + 1);
            assert(s.subrange(n + i, n + e) =~= b.subrange(i, e));
            if i < e && b[e - 1] == '\r' {
                assert(s.subrange(n + i, n + e - 1) =~= b.subrange(i, e - 1));
            }
            assert(line_text(s, n + i, n + e) == line_text(b, i, e));
        } else {
            assert(s.skip(n + i) =~= b.skip(i));
        }
    }
}

proof fn lemma_line_bounds(s: Seq<char>, i: int)
    requires
        0 <= i <= s.len(),
    ensures
        i <= line_end(s, i) <= s.len(),
        forall|k: int| i <= k < line_end(s, i) ==> s[k] != '\n',
        line_end(s, i) == s.len() || s[line_end(s, i)] == '\n',
    decreases s.len() - i,
{
    if i < s.len() && s[i] != '\n' {
        lemma_line_bounds(s, i + 1);
    }
}

/// A text is cut at its line feeds: what stands before the first of them is a
/// line, without a carriage return at its end, and what follows is cut further. A
/// text without a line feed is one line, unless it is empty.
pub proof fn a_text_is_cut_at_its_line_feeds(line: Seq<char>, rest: Seq<char>)
    requires
        !line.contains('\n'),
    ensures
        lines(Seq::empty()) == Seq::<Seq<char>>::empty(),
        line.len() > 0 ==> lines(line) == seq![line],
        lines(line + seq!['\n'] + rest) == seq![
            if line.len() > 0 && line.last() == '\r' {
                line.drop_last()
            } else {
                line
            },
        ] + lines(rest),
{
    let n = line.len() as int;
    assert forall|k: int| 0 <= k < n implies line[k] != '\n' by {
        assert(line.contains(line[k]));
    }
    if n > 0 {
        lemma_line_end(line, 0, n);
        assert(line.skip(0) =~= line);
    }
    let s = line + seq!['\n'] + rest;
    assert forall|k: int| 0 <= k < n implies s[k] != '\n' by {
        assert(s[k] == line[k]);
    }
    assert(s[n] == '\n');
    lemma_line_end(s, 0, n);
    let head = line + seq!['\n'];
    lemma_lines_shift(head, rest, 0);
    assert(head.len() + 0 == n + 1);
    assert(lines_from(s, n + 1) == lines(rest));
    assert(s.subrange(0, n) =~= line);
    if n > 0 && line.last() == '\r' {
        assert(s[n - 1] == '\r');
        assert(s.subrange(0, n - 1) =~= line.drop_last());
    } else if n > 0 {
        assert(s[n - 1] == line.last());
    }
}

/// A stretch of a class is not empty, holds nothing but characters of the class,
/// and has no such character right before it or right behind it.
pub proof fn a_stretch_goes_as_far_as_it_can(s: Seq<char>, class: WordClass, i: int, j: int)
    ensures
        is_run(s, class, i, j) <==> {
            &&& 0 <= i
            &&& i < j
            &&& j <= s.len()
            &&& forall|k: int| i <= k < j ==> class.has(#[trigger] s[k])
            &&& i > 0 ==> !class.has(s[i - 1])
            &&& j < s.len() ==> !class.has(s[j])
        },
{
}

} // verus!

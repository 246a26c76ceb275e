//! The schema manifest: which migrations exist, and which release they need.
use vstd::prelude::*;
use crate::paths::{below, join_path, parent, parent_path};
use crate::text::{chars_of, numeral_up_to, parse_numeral};
use crate::words::{find_runs, runs, span_view, WordClass};

verus! {

/// The parsed contents of the schema manifest.
#[derive(Debug, Clone)]
pub struct Manifest {
    /// The schema version that the release supports.
    pub version: u32,
    /// The oldest release that can apply this manifest.
    pub engram_version_min: String,
    /// The migrations that are expected on disk.
    pub applied_migrations: Vec<ManifestMigration>,
}

/// A migration as the manifest declares it.
#[derive(Debug, Clone)]
pub struct ManifestMigration {
    pub version: u32,
    pub file: String,
    pub description: String,
}

impl Manifest {
    /// The directory of the migration files: `migrations` beside the manifest.
    pub fn migrations_dir(&self, manifest_path: &str) -> (r: String)
        ensures
            r@ == below(
                match parent(manifest_path@) {
                    Some(dir) => dir,
                    None => "."@,
                },
                "migrations"@,
            ),
    {
        match parent_path(manifest_path) {
            Some(dir) => join_path(dir.as_str(), "migrations"),
            None => join_path(".", "migrations"),
        }
    }

    /// The versions that the manifest declares, in its own order.
    pub open spec fn declared(self) -> Seq<u32> {
        self.applied_migrations@.map_values(|m: ManifestMigration| m.version)
    }
}

// --- Releases ----------------------------------------------------------------

/// The position of the first hyphen or plus sign at or after `i`, or the end.
pub open spec fn release_end(s: Seq<char>, i: int) -> int
    decreases s.len() - i,
{
    if 0 <= i < s.len() && s[i] != '-' && s[i] != '+' {
        release_end(s, i + 1)
    } else {
        i
    }
}

/// The numbers of the dotted parts; none where a part is not a number.
pub open spec fn part_numbers(s: Seq<char>, spans: Seq<(int, int)>) -> Option<Seq<nat>>
    decreases spans.len(),
{
    if spans.len() == 0 {
        Some(Seq::empty())
    } else {
        match (
            part_numbers(s, spans.drop_last()),
            numeral_up_to(s.subrange(spans.last().0, spans.last().1), u64::MAX as nat),
        ) {
            (Some(front), Some(n)) => Some(front.push(n)),
            _ => None,
        }
    }
}

/// The numbers of a release such as `0.1.0`. What follows a hyphen or a plus
/// sign is a label and does not count.
pub open spec fn release_numbers(s: Seq<char>) -> Option<Seq<nat>> {
    let release = s.take(release_end(s, 0));
    part_numbers(release, runs(release, WordClass::Dotted))
}

/// Part `i` of a release; a part that is not written is zero.
pub open spec fn release_part(numbers: Seq<nat>, i: int) -> nat {
    if 0 <= i < numbers.len() {
        numbers[i]
    } else {
        0
    }
}

/// `a` is an older release than `b`: the first part that differs is smaller.
pub open spec fn older(a: Seq<nat>, b: Seq<nat>) -> bool {
    exists|i: int|
        0 <= i && #[trigger] release_part(a, i) < release_part(b, i) && forall|j: int|
            0 <= j < i ==> #[trigger] release_part(a, j) == release_part(b, j)
}

/// The running release is known to be older than `minimum`.
pub open spec fn too_old(running: Seq<char>, minimum: Seq<char>) -> bool {
    match (release_numbers(running), release_numbers(minimum)) {
        (Some(a), Some(b)) => older(a, b),
        _ => false,
    }
}

/// No release is older than itself.
pub proof fn never_older_than_itself(a: Seq<nat>)
    ensures
        !older(a, a),
{
}

/// Of two releases at most one is the older.
pub proof fn older_is_one_way(a: Seq<nat>, b: Seq<nat>)
    requires
        older(a, b),
    ensures
        !older(b, a),
{
    if older(b, a) {
        let i = choose|i: int|
            0 <= i && #[trigger] release_part(a, i) < release_part(b, i) && forall|j: int|
                0 <= j < i ==> #[trigger] release_part(a, j) == release_part(b, j);
        let k = choose|k: int|
            0 <= k && #[trigger] release_part(b, k) < release_part(a, k) && forall|j: int|
                0 <= j < k ==> #[trigger] release_part(b, j) == release_part(a, j);
        if i < k {
            assert(release_part(b, i) == release_part(a, i));
        } else if k < i {
            assert(release_part(a, k) == release_part(b, k));
        }
    }
}

fn read_release(s: &str) -> (r: Option<Vec<u64>>)
    ensures
        match r {
            Some(v) => release_numbers(s@) == Some(v@.map_values(|n: u64| n as nat)),
            None => release_numbers(s@) is None,
        },
{
    let all = chars_of(s);
    let mut chars: Vec<char> = Vec::new();
    let mut i: usize = 0;
    while i < all.len() && all[i] != '-' && all[i] != '+'
        invariant
            i <= all@.len(),
            all@ == s@,
            chars@ == all@.take(i as int),
            release_end(s@, i as int) == release_end(s@, 0),
        decreases all@.len() - i,
    {
        chars.push(all[i]);
        i = i + 1;
    }
    let ghost release = s@.take(release_end(s@, 0));
    assert(chars@ == release);
    let spans = find_runs(&chars, WordClass::Dotted);
    let ghost spans_v = spans@.map_values(|p: (usize, usize)| span_view(p));
    let mut out: Vec<u64> = Vec::new();
    let mut k: usize = 0;
    assert(out@.map_values(|n: u64| n as nat) =~= Seq::<nat>::empty());
    while k < spans.len()
        invariant
            k <= spans@.len(),
            chars@ == release,
            release == s@.take(release_end(s@, 0)),
            spans_v == spans@.map_values(|p: (usize, usize)| span_view(p)),
            spans_v == runs(release, WordClass::Dotted),
            forall|m: int|
                0 <= m < spans@.len() ==> (#[trigger] spans@[m]).0 < spans@[m].1 <= chars@.len(),
            part_numbers(release, spans_v.take(k as int)) == Some(
                out@.map_values(|n: u64| n as nat),
            ),
        decreases spans@.len() - k,
    {
        let (from, to) = spans[k];
        assert(spans_v.take(k + 1).drop_last() == spans_v.take(k as int));
        assert(spans_v.take(k + 1).last() == span_view(spans@[k as int]));
        match parse_numeral(&chars, from, to, u64::MAX) {
            Some(n) => {
                let ghost before = out@.map_values(|n: u64| n as nat);
                out.push(n);
                assert(out@.map_values(|n: u64| n as nat) =~= before.push(n as nat));
            },
            None => {
                proof {
                    lemma_part_numbers_fail(release, spans_v, k as int + 1);
                }
                return None;
            },
        }
        k = k + 1;
    }
    assert(spans_v.take(k as int) == spans_v);
    Some(out)
}

/// A part that is not a number spoils the whole release.
proof fn lemma_part_numbers_fail(s: Seq<char>, spans: Seq<(int, int)>, k: int)
    requires
        0 <= k <= spans.len(),
        part_numbers(s, spans.take(k)) is None,
    ensures
        part_numbers(s, spans) is None,
    decreases spans.len() - k,
{
    if k < spans.len() {
        assert(spans.take(k + 1).drop_last() == spans.take(k));
        lemma_part_numbers_fail(s, spans, k + 1);
    } else {
        assert(spans.take(k) == spans);
    }
}

fn part_at(v: &Vec<u64>, i: usize) -> (r: u64)
    ensures
        r == release_part(v@.map_values(|n: u64| n as nat), i as int),
{
    if i < v.len() {
        v[i]
    } else {
        0
    }
}

fn is_older(a: &Vec<u64>, b: &Vec<u64>) -> (r: bool)
    ensures
        r == older(a@.map_values(|n: u64| n as nat), b@.map_values(|n: u64| n as nat)),
{
    let ghost av = a@.map_values(|n: u64| n as nat);
    let ghost bv = b@.map_values(|n: u64| n as nat);
    let n: usize = if a.len() < b.len() {
        b.len()
    } else {
        a.len()
    };
    let mut i: usize = 0;
    while i < n
        invariant
            i <= n,
            n >= a@.len(),
            n >= b@.len(),
            av == a@.map_values(|n: u64| n as nat),
            bv == b@.map_values(|n: u64| n as nat),
            forall|j: int| 0 <= j < i ==> #[trigger] release_part(av, j) == release_part(bv, j),
        decreases n - i,
    {
        let x: u64 = part_at(a, i);
        let y: u64 = part_at(b, i);
        if x < y {
            assert(release_part(av, i as int) < release_part(bv, i as int));
            return true;
        }
        if x > y {
            assert(release_part(bv, i as int) < release_part(av, i as int));
            proof {
                older_is_one_way(bv, av);
            }
            return false;
        }
        i = i + 1;
    }
    false
}

/// Whether the running release is known to be older than `minimum`.
pub fn is_too_old(running: &str, minimum: &str) -> (r: bool)
    ensures
        r == too_old(running@, minimum@),
{
    match (read_release(running), read_release(minimum)) {
        (Some(a), Some(b)) => is_older(&a, &b),
        _ => false,
    }
}

/// Of two releases one is the older, or all of their parts are equal; a part that
/// is not written counts as zero.
pub proof fn releases_are_ordered(a: Seq<nat>, b: Seq<nat>)
    ensures
        older(a, b) || older(b, a) || forall|i: int|
            0 <= i ==> #[trigger] release_part(a, i) == release_part(b, i),
        forall|i: int| 0 <= i < a.len() ==> #[trigger] release_part(a, i) == a[i],
        forall|i: int| i >= a.len() ==> #[trigger] release_part(a, i) == 0,
{
    if exists|i: int| 0 <= i && #[trigger] release_part(a, i) != release_part(b, i) {
        let i = choose|i: int| 0 <= i && #[trigger] release_part(a, i) != release_part(b, i);
        lemma_first_difference(a, b, i);
    }
}

proof fn lemma_first_difference(a: Seq<nat>, b: Seq<nat>, i: int)
    requires
        0 <= i,
        release_part(a, i) != release_part(b, i),
    ensures
        older(a, b) || older(b, a),
    decreases i,
{
    if exists|j: int| 0 <= j < i && #[trigger] release_part(a, j) != release_part(b, j) {
        let j = choose|j: int| 0 <= j < i && #[trigger] release_part(a, j) != release_part(b, j);
        lemma_first_difference(a, b, j);
    } else {
        assert(forall|j: int|
            0 <= j < i ==> #[trigger] release_part(b, j) == release_part(a, j)) by {
            assert forall|j: int| 0 <= j < i implies #[trigger] release_part(b, j) == release_part(
                a,
                j,
            ) by {
                assert(release_part(a, j) == release_part(b, j));
            }
        }
        if release_part(a, i) < release_part(b, i) {
            assert(older(a, b));
        } else {
            assert(release_part(b, i) < release_part(a, i));
            assert(older(b, a));
        }
    }
}

/// The first part that differs decides which release is the older.
pub proof fn the_first_part_that_differs_decides(a: Seq<nat>, b: Seq<nat>, i: int)
    requires
        0 <= i,
        forall|j: int| 0 <= j < i ==> #[trigger] release_part(a, j) == release_part(b, j),
        release_part(a, i) < release_part(b, i),
    ensures
        older(a, b),
{
}

proof fn lemma_release_end(s: Seq<char>, i: int)
    requires
        0 <= i <= s.len(),
    ensures
        i <= release_end(s, i) <= s.len(),
        forall|k: int| i <= k < release_end(s, i) ==> s[k] != '-' && s[k] != '+',
        release_end(s, i) == s.len() || s[release_end(s, i)] == '-' || s[release_end(s, i)] == '+',
    decreases s.len() - i,
{
    if i < s.len() && s[i] != '-' && s[i] != '+' {
        lemma_release_end(s, i + 1);
    }
}

proof fn lemma_part_numbers(s: Seq<char>, spans: Seq<(int, int)>)
    ensures
        match part_numbers(s, spans) {
            Some(numbers) => {
                &&& numbers.len() == spans.len()
                &&& forall|k: int|
                    0 <= k < spans.len() ==> numeral_up_to(
                        s.subrange((#[trigger] spans[k]).0, spans[k].1),
                        u64::MAX as nat,
                    ) == Some(numbers[k])
            },
            None => exists|k: int|
                0 <= k < spans.len() && numeral_up_to(
                    s.subrange((#[trigger] spans[k]).0, spans[k].1),
                    u64::MAX as nat,
                ) is None,
        },
    decreases spans.len(),
{
    if spans.len() > 0 {
        let front = spans.drop_last();
        lemma_part_numbers(s, front);
        match part_numbers(s, front) {
            None => {
                let k = choose|k: int|
                    0 <= k < front.len() && numeral_up_to(
                        s.subrange((#[trigger] front[k]).0, front[k].1),
                        u64::MAX as nat,
                    ) is None;
                assert(spans[k] == front[k]);
            },
            Some(numbers) => {
                assert(spans[spans.len() - 1] == spans.last());
                assert forall|k: int| 0 <= k < front.len() implies numeral_up_to(
                    s.subrange((#[trigger] spans[k]).0, spans[k].1),
                    u64::MAX as nat,
                ) == Some(numbers[k]) by {
                    assert(front[k] == spans[k]);
                }
            },
        }
    }
}

/// The numbers of a release are those between its full stops, up to the first
/// hyphen or plus sign; where one of these parts is no number, the release has
/// none, and nothing is known to be older or newer than it.
pub proof fn a_release_is_its_numbers(s: Seq<char>)
    ensures
        exists|end: int|
            {
                &&& 0 <= end <= s.len()
                &&& forall|k: int| 0 <= k < end ==> s[k] != '-' && s[k] != '+'
                &&& end == s.len() || s[end] == '-' || s[end] == '+'
                &&& {
                    let release = #[trigger] s.take(end);
                    let parts = runs(release, WordClass::Dotted);
                    match release_numbers(s) {
                        Some(numbers) => {
                            &&& numbers.len() == parts.len()
                            &&& forall|k: int|
                                0 <= k < parts.len() ==> numeral_up_to(
                                    release.subrange((#[trigger] parts[k]).0, parts[k].1),
                                    u64::MAX as nat,
                                ) == Some(numbers[k])
                        },
                        None => exists|k: int|
                            0 <= k < parts.len() && numeral_up_to(
                                release.subrange((#[trigger] parts[k]).0, parts[k].1),
                                u64::MAX as nat,
                            ) is None,
                    }
                }
            },
        forall|other: Seq<char>|
            release_numbers(s) is None ==> !#[trigger] too_old(s, other) && !too_old(other, s),
        forall|other: Seq<char>|
            release_numbers(s) is Some && release_numbers(other) is Some ==> (#[trigger] too_old(
                s,
                other,
            ) <==> older(release_numbers(s)->0, release_numbers(other)->0)),
{
    lemma_release_end(s, 0);
    let end = release_end(s, 0);
    let release = s.take(end);
    lemma_part_numbers(release, runs(release, WordClass::Dotted));
}

} // verus!

//! Migration files: which directory entries are migrations, in what order they
//! apply, and which of them announce a loss of data.
use vstd::prelude::*;
use crate::sorting::{
    in_rank_order, ranked, ranked_is_a_sorted_permutation, sort_ranked, Rank, Ranked,
};
use crate::storage::error::{Error, ErrorView};
use crate::text::{
    chars_of, numeral_up_to, occurs_at, occurs_in, parse_numeral, same_text, skip_whitespace,
    stands_at, text_of, trimmed_start, find_chars,
};
use crate::words::{find_lines, lines};

verus! {

/// An entry of the migrations directory.
#[derive(Debug)]
pub struct DirEntry {
    /// The entry's file name.
    pub name: String,
    /// The entry's path.
    pub path: String,
}

/// A migration file.
#[derive(Debug)]
pub struct MigrationFile {
    pub version: u32,
    pub name: String,
    pub path: String,
}

/// What a [`MigrationFile`] holds.
pub struct FileView {
    pub version: u32,
    pub name: Seq<char>,
    pub path: Seq<char>,
}

impl DeepView for MigrationFile {
    type V = FileView;

    open spec fn deep_view(&self) -> FileView {
        FileView { version: self.version, name: self.name@, path: self.path@ }
    }
}

impl Rank for MigrationFile {
    open spec fn rankable(self) -> bool {
        true
    }

    open spec fn ranks_before(self, other: Self) -> bool {
        self.version <= other.version
    }

    proof fn rank_is_total(self, other: Self) {
    }

    proof fn rank_is_transitive(self, mid: Self, other: Self) {
    }
}

impl Ranked for MigrationFile {
    fn may_precede(&self, other: &Self) -> (r: bool) {
        self.version <= other.version
    }
}

// --- File names --------------------------------------------------------------

/// The position of the last full stop before `end`, or -1.
pub open spec fn last_dot(s: Seq<char>, end: int) -> int
    decreases end,
{
    if end <= 0 {
        -1
    } else if end <= s.len() && s[end - 1] == '.' {
        end - 1
    } else {
        last_dot(s, end - 1)
    }
}

/// The position of the first underscore at or after `i`, or the end.
pub open spec fn prefix_end(s: Seq<char>, i: int) -> int
    decreases s.len() - i,
{
    if 0 <= i < s.len() && s[i] != '_' {
        prefix_end(s, i + 1)
    } else {
        i
    }
}

/// The number that a numeral with an optional plus sign stands for, where it
/// fits thirty-two bits.
pub open spec fn version_numeral(s: Seq<char>) -> Option<nat> {
    if s.len() > 0 && s[0] == '+' {
        numeral_up_to(s.drop_first(), u32::MAX as nat)
    } else {
        numeral_up_to(s, u32::MAX as nat)
    }
}

/// The migration version of a file name: the number before the first
/// underscore of the stem of a `.sql` file.
pub open spec fn file_version(name: Seq<char>) -> Option<nat> {
    let dot = last_dot(name, name.len() as int);
    if dot <= 0 || name.skip(dot + 1) != "sql"@ {
        None
    } else {
        let stem = name.take(dot);
        version_numeral(stem.take(prefix_end(stem, 0)))
    }
}

proof fn lemma_last_dot(s: Seq<char>, end: int)
    requires
        0 <= end <= s.len(),
    ensures
        -1 <= last_dot(s, end) < end || (end == 0 && last_dot(s, end) == -1),
    decreases end,
{
    if end > 0 && s[end - 1] != '.' {
        lemma_last_dot(s, end - 1);
    }
}

/// The migration version of a file name.
pub fn version_of_file(name: &str) -> (r: Option<u32>)
    ensures
        match r {
            Some(v) => file_version(name@) == Some(v as nat),
            None => file_version(name@) is None,
        },
{
    let chars = chars_of(name);
    let n: usize = chars.len();
    let mut end: usize = n;
    while end > 0 && chars[end - 1] != '.'
        invariant
            end <= n == chars@.len(),
            chars@ == name@,
            last_dot(name@, end as int) == last_dot(name@, n as int),
        decreases end,
    {
        end = end - 1;
    }
    if end <= 1 {
        return None;
    }
    let dot: usize = end - 1;
    assert(last_dot(name@, n as int) == dot);
    let extension = text_of(&chars, end, n);
    assert(name@.skip(dot + 1) == chars@.subrange(end as int, n as int));
    if !same_text(extension.as_str(), "sql") {
        return None;
    }
    let ghost stem = name@.take(dot as int);
    let mut stop: usize = 0;
    while stop < dot && chars[stop] != '_'
        invariant
            stop <= dot < n == chars@.len(),
            chars@ == name@,
            stem == name@.take(dot as int),
            prefix_end(stem, stop as int) == prefix_end(stem, 0),
        decreases dot - stop,
    {
        assert(stem[stop as int] == chars@[stop as int]);
        stop = stop + 1;
    }
    assert(stop < dot ==> stem[stop as int] == chars@[stop as int]);
    assert(prefix_end(stem, 0) == stop);
    let ghost prefix = stem.take(stop as int);
    let from: usize = if stop > 0 && chars[0] == '+' {
        1
    } else {
        0
    };
    proof {
        if stop > 0 {
            assert(prefix[0] == chars@[0]);
        }
        assert(prefix == chars@.subrange(0, stop as int));
        assert(from == 1 ==> prefix.drop_first() == chars@.subrange(1, stop as int));
    }
    match parse_numeral(&chars, from, stop, u32::MAX as u64) {
        Some(v) => Some(v as u32),
        None => None,
    }
}

// --- Listing -----------------------------------------------------------------

/// The migration files among the entries, in the order of the entries.
pub open spec fn selected(entries: Seq<DirEntry>) -> Seq<MigrationFile>
    decreases entries.len(),
{
    if entries.len() == 0 {
        Seq::empty()
    } else {
        let front = selected(entries.drop_last());
        let e = entries.last();
        match file_version(e.name@) {
            Some(v) => front.push(
                MigrationFile { version: v as u32, name: e.name, path: e.path },
            ),
            None => front,
        }
    }
}

/// The migration files of a directory in the order in which they apply:
/// ascending by version, files of one version in the directory's order. Fails
/// where the directory does not exist, that is, where `entries` is `None`.
pub fn list_migration_files(dir: &str, entries: Option<Vec<DirEntry>>) -> (r: Result<
    Vec<MigrationFile>,
    Error,
>)
    ensures
        match r {
            Ok(files) => entries is Some && files@ == ranked(selected(entries->0@)),
            Err(e) => entries is None && e.deep_view() == ErrorView::Manifest(
                "migrations directory does not exist: "@ + dir@,
            ),
        },
{
    match entries {
        None => {
            Err(Error::Manifest("migrations directory does not exist: ".to_owned().concat(dir)))
        },
        Some(entries) => {
            let ghost all = entries@;
            let mut rest = entries;
            let mut out: Vec<MigrationFile> = Vec::new();
            let ghost mut done: int = 0;
            assert(all.skip(0) == all);
            while rest.len() > 0
                invariant
                    0 <= done <= all.len(),
                    rest@ == all.skip(done),
                    out@ == selected(all.take(done)),
                decreases rest@.len(),
            {
                let e = rest.remove(0);
                assert(rest@ == all.skip(done + 1));
                assert(all.take(done + 1).drop_last() == all.take(done));
                assert(all.take(done + 1).last() == e);
                if let Some(version) = version_of_file(e.name.as_str()) {
                    out.push(MigrationFile { version, name: e.name, path: e.path });
                }
                proof {
                    done = done + 1;
                }
            }
            assert(all.take(done) == all);
            Ok(sort_ranked(out))
        },
    }
}

/// Migrations are listed in ascending order of their versions, and listing
/// neither drops a migration file nor adds one.
pub proof fn listing_ascends(entries: Seq<DirEntry>)
    ensures
        forall|i: int, j: int|
            0 <= i <= j < ranked(selected(entries)).len() ==> (#[trigger] ranked(
                selected(entries),
            )[i]).version <= (#[trigger] ranked(selected(entries))[j]).version,
        ranked(selected(entries)).to_multiset() == selected(entries).to_multiset(),
{
    ranked_is_a_sorted_permutation(selected(entries));
    let r = ranked(selected(entries));
    assert forall|i: int, j: int| 0 <= i <= j < r.len() implies (#[trigger] r[i]).version
        <= (#[trigger] r[j]).version by {
        assert(in_rank_order(r));
        assert(r[i].ranks_before(r[j]));
    }
}

// --- The mark of a destructive migration -------------------------------------

/// `c` with an ASCII small letter made a capital.
pub open spec fn ascii_capital(c: char) -> char {
    if 'a' <= c <= 'z' {
        (c as int - 32) as char
    } else {
        c
    }
}

/// `s` with every ASCII small letter made a capital.
pub open spec fn ascii_capitals(s: Seq<char>) -> Seq<char> {
    s.map_values(|c: char| ascii_capital(c))
}

/// The line is a comment.
pub open spec fn is_comment(line: Seq<char>) -> bool {
    occurs_at(trimmed_start(line), "--"@, 0)
}

/// The line holds nothing but white space.
pub open spec fn is_empty_line(line: Seq<char>) -> bool {
    trimmed_start(line).len() == 0
}

/// The line is a comment that announces a breaking change.
pub open spec fn is_marker(line: Seq<char>) -> bool {
    is_comment(line) && occurs_in(ascii_capitals(trimmed_start(line)), "BREAKING:"@)
}

/// The header of a migration, which ends at the first line that is neither
/// empty nor a comment, announces a breaking change.
pub open spec fn breaking(text: Seq<char>) -> bool {
    exists|i: int|
        0 <= i < lines(text).len() && is_marker(#[trigger] lines(text)[i]) && forall|j: int|
            0 <= j < i ==> is_comment(#[trigger] lines(text)[j]) || is_empty_line(lines(text)[j])
}

fn capital(c: char) -> (r: char)
    ensures
        r == ascii_capital(c),
{
    if 'a' <= c && c <= 'z' {
        let lower: u8 = c as u8;
        (lower - 32) as char
    } else {
        c
    }
}

/// Whether the header of a migration announces a breaking change.
pub fn contains_breaking_marker(text: &str) -> (r: bool)
    ensures
        r == breaking(text@),
{
    let chars = chars_of(text);
    let spans = find_lines(&chars);
    let dashes = chars_of("--");
    let mark = chars_of("BREAKING:");
    let mut i: usize = 0;
    while i < spans.len()
        invariant
            chars@ == text@,
            dashes@ == "--"@,
            mark@ == "BREAKING:"@,
            i <= spans@.len() == lines(text@).len(),
            forall|m: int|
                0 <= m < spans@.len() ==> (#[trigger] spans@[m]).0 <= spans@[m].1 <= chars@.len()
                    && chars@.subrange(spans@[m].0 as int, spans@[m].1 as int) == lines(text@)[m],
            forall|j: int|
                0 <= j < i ==> (is_comment(#[trigger] lines(text@)[j]) || is_empty_line(
                    lines(text@)[j],
                )) && !is_marker(lines(text@)[j]),
        decreases spans@.len() - i,
    {
        let (from, to) = spans[i];
        let ghost line = lines(text@)[i as int];
        let start = skip_whitespace(&chars, from, to);
        let mut trimmed: Vec<char> = Vec::new();
        let mut capitals: Vec<char> = Vec::new();
        let mut k: usize = start;
        while k < to
            invariant
                from <= start <= k <= to <= chars@.len(),
                trimmed@ == chars@.subrange(start as int, k as int),
                capitals@ == ascii_capitals(trimmed@),
            decreases to - k,
        {
            let ghost before = trimmed@;
            trimmed.push(chars[k]);
            capitals.push(capital(chars[k]));
            assert(ascii_capitals(trimmed@) =~= ascii_capitals(before).push(
                ascii_capital(chars@[k as int]),
            ));
            k = k + 1;
        }
        assert(trimmed@ == trimmed_start(line));
        if !stands_at(&trimmed, &dashes, 0) {
            if trimmed.len() > 0 {
                assert(!is_comment(line) && !is_empty_line(line));
                assert forall|m: int|
                    0 <= m < lines(text@).len() && is_marker(#[trigger] lines(text@)[m]) implies !(
                forall|j: int|
                    0 <= j < m ==> is_comment(#[trigger] lines(text@)[j]) || is_empty_line(
                        lines(text@)[j],
                    )) by {
                    if m > i {
                        assert(!is_comment(lines(text@)[i as int]));
                    }
                }
                return false;
            }
        } else if find_chars(&capitals, &mark).is_some() {
            assert(is_marker(lines(text@)[i as int]));
            return true;
        }
        i = i + 1;
    }
    false
}

// --- Laws --------------------------------------------------------------------

proof fn lemma_dot_at(s: Seq<char>, end: int, dot: int)
    requires
        0 <= dot < end <= s.len(),
        s[dot] == '.',
        forall|k: int| dot < k < end ==> s[k] != '.',
    ensures
        last_dot(s, end) == dot,
    decreases end,
{
    if end - 1 > dot {
        lemma_dot_at(s, end - 1, dot);
    }
}

proof fn lemma_dot_is(s: Seq<char>, end: int)
    requires
        0 <= end <= s.len(),
    ensures
        last_dot(s, end) >= 0 ==> last_dot(s, end) < end && s[last_dot(s, end)] == '.',
        -1 <= last_dot(s, end),
    decreases end,
{
    if end > 0 && s[end - 1] != '.' {
        lemma_dot_is(s, end - 1);
    }
}

proof fn lemma_prefix_end_at(s: Seq<char>, i: int, stop: int)
    requires
        0 <= i <= stop <= s.len(),
        forall|k: int| i <= k < stop ==> s[k] != '_',
        stop == s.len() || s[stop] == '_',
    ensures
        prefix_end(s, i) == stop,
    decreases stop - i,
{
    if i < stop {
        lemma_prefix_end_at(s, i + 1, stop);
    }
}

proof fn lemma_prefix_end_is(s: Seq<char>, i: int)
    requires
        0 <= i <= s.len(),
    ensures
        i <= prefix_end(s, i) <= s.len(),
        forall|k: int| i <= k < prefix_end(s, i) ==> s[k] != '_',
        prefix_end(s, i) == s.len() || s[prefix_end(s, i)] == '_',
    decreases s.len() - i,
{
    if i < s.len() && s[i] != '_' {
        lemma_prefix_end_is(s, i + 1);
    }
}

/// A file is a migration exactly where its name is made of a number, nothing or
/// an underscore and more, and `.sql`; the number is its version.
pub proof fn the_number_in_front_is_the_version(name: Seq<char>, v: nat)
    ensures
        file_version(name) == Some(v) <==> exists|number: Seq<char>, more: Seq<char>|
            {
                &&& name == #[trigger] (number + more + ".sql"@)
                &&& !number.contains('_')
                &&& more.len() == 0 || more[0] == '_'
                &&& version_numeral(number) == Some(v)
            },
{
    reveal_strlit(".sql");
    reveal_strlit("sql");
    let n = name.len() as int;
    if file_version(name) == Some(v) {
        lemma_dot_is(name, n);
        let dot = last_dot(name, n);
        let stem = name.take(dot);
        lemma_prefix_end_is(stem, 0);
        let stop = prefix_end(stem, 0);
        let number = stem.take(stop);
        let more = stem.skip(stop);
        assert(name.skip(dot + 1) == "sql"@);
        let extension = name.skip(dot + 1);
        assert(extension.len() == 3 && extension[0] == 's' && extension[1] == 'q' && extension[2]
            == 'l');
        assert(name[dot + 1] == extension[0] && name[dot + 2] == extension[1] && name[dot + 3]
            == extension[2]);
        assert(number + more =~= stem);
        assert(name =~= stem + ".sql"@);
        if number.contains('_') {
            let k = choose|k: int| 0 <= k < number.len() && number[k] == '_';
            assert(stem[k] == '_');
        }
    }
    if exists|number: Seq<char>, more: Seq<char>|
        {
            &&& name == #[trigger] (number + more + ".sql"@)
            &&& !number.contains('_')
            &&& more.len() == 0 || more[0] == '_'
            &&& version_numeral(number) == Some(v)
        } {
        let (number, more) = choose|number: Seq<char>, more: Seq<char>|
            {
                &&& name == #[trigger] (number + more + ".sql"@)
                &&& !number.contains('_')
                &&& more.len() == 0 || more[0] == '_'
                &&& version_numeral(number) == Some(v)
            };
        let dot = (number.len() + more.len()) as int;
        assert(number.len() > 0);
        assert(name[dot] == '.');
        assert(name[dot + 1] == 's' && name[dot + 2] == 'q' && name[dot + 3] == 'l');
        assert(n == dot + 4);
        assert forall|k: int| dot < k < n implies name[k] != '.' by {
            assert(k == dot + 1 || k == dot + 2 || k == dot + 3);
        }
        lemma_dot_at(name, n, dot);
        assert(name.skip(dot + 1) =~= "sql"@);
        let stem = name.take(dot as int);
        let stop = number.len() as int;
        assert forall|k: int| 0 <= k < stop implies stem[k] != '_' by {
            assert(stem[k] == number[k]);
            assert(number.contains(number[k]));
        }
        assert(stop == stem.len() || stem[stop] == '_') by {
            if more.len() > 0 {
                assert(stem[stop] == more[0]);
            }
        }
        lemma_prefix_end_at(stem, 0, stop);
        assert(stem.take(stop) =~= number);
    }
}

/// The number of a version may have a plus sign in front, is made of digits, and
/// fits thirty-two bits.
pub proof fn a_version_is_a_number(s: Seq<char>)
    ensures
        s.len() > 0 && s[0] == '+' ==> version_numeral(s) == numeral_up_to(
            s.drop_first(),
            0xffff_ffff,
        ),
        !(s.len() > 0 && s[0] == '+') ==> version_numeral(s) == numeral_up_to(s, 0xffff_ffff),
{
}

/// The migrations of a directory are all of its files that have a version, each
/// with its name and its path.
pub proof fn every_migration_file_is_listed(entries: Seq<DirEntry>)
    ensures
        selected(entries) == entries.filter(
            |e: DirEntry| file_version(e.name@) is Some,
        ).map_values(
            |e: DirEntry|
                MigrationFile {
                    version: file_version(e.name@)->0 as u32,
                    name: e.name,
                    path: e.path,
                },
        ),
    decreases entries.len(),
{
    reveal(Seq::filter);
    let keep = |e: DirEntry| file_version(e.name@) is Some;
    let show = |e: DirEntry|
        MigrationFile { version: file_version(e.name@)->0 as u32, name: e.name, path: e.path };
    if entries.len() == 0 {
        assert(selected(entries) =~= entries.filter(keep).map_values(show));
    } else {
        let front = entries.drop_last();
        every_migration_file_is_listed(front);
        if keep(entries.last()) {
            assert(entries.filter(keep).map_values(show) =~= front.filter(keep).map_values(
                show,
            ).push(show(entries.last())));
        }
    }
}

/// A migration announces a breaking change exactly where one of its lines starts,
/// behind white space, with two dashes and holds `BREAKING:` in whatever case, and
/// every line before it starts with two dashes, too, or is blank.
pub proof fn a_breaking_change_is_announced_at_the_top(text: Seq<char>)
    ensures
        breaking(text) <==> exists|i: int|
            {
                &&& 0 <= i < lines(text).len()
                &&& occurs_at(trimmed_start(#[trigger] lines(text)[i]), "--"@, 0)
                &&& occurs_in(
                    ascii_capitals(trimmed_start(lines(text)[i])),
                    "BREAKING:"@,
                )
                &&& forall|j: int|
                    0 <= j < i ==> occurs_at(trimmed_start(#[trigger] lines(text)[j]), "--"@, 0)
                        || trimmed_start(lines(text)[j]).len() == 0
            },
        forall|s: Seq<char>, k: int|
            0 <= k < s.len() ==> #[trigger] ascii_capitals(s)[k] == if 'a' <= s[k] <= 'z' {
                (s[k] as int - 32) as char
            } else {
                s[k]
            },
        forall|s: Seq<char>| (#[trigger] ascii_capitals(s)).len() == s.len(),
{
    if breaking(text) {
        let i = choose|i: int|
            0 <= i < lines(text).len() && is_marker(#[trigger] lines(text)[i]) && forall|j: int|
                0 <= j < i ==> is_comment(#[trigger] lines(text)[j]) || is_empty_line(
                    lines(text)[j],
                );
        assert(occurs_at(trimmed_start(lines(text)[i]), "--"@, 0));
        assert forall|j: int| 0 <= j < i implies occurs_at(
            trimmed_start(#[trigger] lines(text)[j]),
            "--"@,
            0,
        ) || trimmed_start(lines(text)[j]).len() == 0 by {
            assert(is_comment(lines(text)[j]) || is_empty_line(lines(text)[j]));
        }
    }
    if exists|i: int|
        {
            &&& 0 <= i < lines(text).len()
            &&& occurs_at(trimmed_start(#[trigger] lines(text)[i]), "--"@, 0)
            &&& occurs_in(ascii_capitals(trimmed_start(lines(text)[i])), "BREAKING:"@)
            &&& forall|j: int|
                0 <= j < i ==> occurs_at(trimmed_start(#[trigger] lines(text)[j]), "--"@, 0)
                    || trimmed_start(lines(text)[j]).len() == 0
        } {
        let i = choose|i: int|
            {
                &&& 0 <= i < lines(text).len()
                &&& occurs_at(trimmed_start(#[trigger] lines(text)[i]), "--"@, 0)
                &&& occurs_in(ascii_capitals(trimmed_start(lines(text)[i])), "BREAKING:"@)
                &&& forall|j: int|
                    0 <= j < i ==> occurs_at(trimmed_start(#[trigger] lines(text)[j]), "--"@, 0)
                        || trimmed_start(lines(text)[j]).len() == 0
            };
        assert(is_marker(lines(text)[i]));
        assert forall|j: int| 0 <= j < i implies is_comment(#[trigger] lines(text)[j])
            || is_empty_line(lines(text)[j]) by {
            assert(occurs_at(trimmed_start(lines(text)[j]), "--"@, 0) || trimmed_start(
                lines(text)[j],
            ).len() == 0);
        }
    }
}

} // verus!

//! Comparing the schemas of two databases.
//!
//! What a database says of its schema is reduced to the sorted list of its
//! definitions; two databases have the same schema where the lists are equal.
use vstd::prelude::*;
use crate::sorting::{
    in_rank_order, ranked, ranked_is_a_sorted_permutation, ranked_keeps_membership, sort_ranked,
    text_le, text_le_antisymmetric, text_le_transitive, Rank,
};
use crate::text::{same_text, trim, trimmed};

verus! {

// --- Sorted lists of distinct texts ------------------------------------------

/// The texts are in ascending order, and none occurs twice.
pub open spec fn ascends(lines: Seq<Seq<char>>) -> bool {
    forall|i: int, j: int|
        0 <= i < j < lines.len() ==> text_le(#[trigger] lines[i], #[trigger] lines[j]) && lines[i]
            != lines[j]
}

/// Sorts texts and drops those that occur twice.
pub fn sorted_distinct(lines: Vec<String>) -> (r: Vec<String>)
    ensures
        ascends(r.deep_view()),
        forall|t: Seq<char>| #[trigger]
            r.deep_view().contains(t) <==> lines.deep_view().contains(t),
{
    let ghost given = lines@;
    let sorted = sort_ranked(lines);
    proof {
        ranked_is_a_sorted_permutation(given);
    }
    let ghost all = sorted.deep_view();
    let mut out: Vec<String> = Vec::new();
    let mut i: usize = 0;
    while i < sorted.len()
        invariant
            i <= sorted@.len(),
            all == sorted.deep_view(),
            in_rank_order(sorted@),
            ascends(out.deep_view()),
            i > 0 ==> out@.len() > 0 && out.deep_view().last() == all[i - 1],
            i == 0 ==> out@.len() == 0,
            forall|t: Seq<char>| #[trigger]
                out.deep_view().contains(t) <==> all.take(i as int).contains(t),
        decreases sorted@.len() - i,
    {
        let ghost before = out.deep_view();
        let ghost line = all[i as int];
        let ghost seen = all.take(i as int);
        assert(line == sorted@[i as int]@);
        assert(all.take(i + 1) =~= seen.push(line));
        let n: usize = out.len();
        assert(n > 0 ==> before.last() == out@[n - 1]@);
        let repeated = n > 0 && same_text(out[n - 1].as_str(), sorted[i].as_str());
        if !repeated {
            let text = sorted[i].clone();
            out.push(text);
            assert(out.deep_view() =~= before.push(line));
            proof {
                let now = before.push(line);
                if n > 0 {
                    assert(sorted@[i - 1].ranks_before(sorted@[i as int]));
                    assert(text_le(before.last(), line));
                }
                assert forall|a: int, b: int| 0 <= a < b < now.len() implies text_le(
                    #[trigger] now[a],
                    #[trigger] now[b],
                ) && now[a] != now[b] by {
                    if b < before.len() {
                        assert(before[a] != before[b]);
                    } else if a < before.len() - 1 {
                        let top = before[before.len() - 1];
                        assert(text_le(before[a], top) && before[a] != top);
                        text_le_transitive(before[a], top, line);
                        if before[a] == line {
                            text_le_antisymmetric(top, line);
                        }
                    }
                }
            }
        }
        proof {
            let now = out.deep_view();
            assert forall|t: Seq<char>| #[trigger] now.contains(t) <==> seen.push(line).contains(
                t,
            ) by {
                if now.contains(t) {
                    let k = choose|k: int| 0 <= k < now.len() && now[k] == t;
                    if k < before.len() {
                        assert(before[k] == t);
                        assert(before.contains(t));
                        let j = choose|j: int| 0 <= j < seen.len() && seen[j] == t;
                        assert(seen.push(line)[j] == t);
                    } else {
                        assert(seen.push(line)[seen.len() as int] == t);
                    }
                }
                if seen.push(line).contains(t) {
                    let j = choose|j: int|
                        0 <= j < seen.push(line).len() && seen.push(line)[j] == t;
                    if j < seen.len() {
                        assert(seen[j] == t);
                        assert(seen.contains(t));
                        assert(before.contains(t));
                        let k = choose|k: int| 0 <= k < before.len() && before[k] == t;
                        assert(now[k] == t);
                    } else {
                        assert(now[now.len() - 1] == t);
                    }
                }
            }
        }
        i = i + 1;
    }
    proof {
        assert(all.take(i as int) == all);
        assert forall|t: Seq<char>| #[trigger]
            out.deep_view().contains(t) <==> lines.deep_view().contains(t) by {
            lemma_sorted_texts(given, sorted@, t);
            assert(all =~= texts(sorted@));
            assert(lines.deep_view() =~= texts(given));
        }
    }
    out
}

spec fn texts(v: Seq<String>) -> Seq<Seq<char>> {
    v.map_values(|s: String| s@)
}

proof fn lemma_sorted_texts(given: Seq<String>, sorted: Seq<String>, t: Seq<char>)
    requires
        sorted == ranked(given),
    ensures
        texts(sorted).contains(t) <==> texts(given).contains(t),
{
    if texts(sorted).contains(t) {
        let k = choose|k: int| 0 <= k < sorted.len() && texts(sorted)[k] == t;
        assert(sorted.contains(sorted[k]));
        ranked_keeps_membership(given, sorted[k]);
        let j = choose|j: int| 0 <= j < given.len() && given[j] == sorted[k];
        assert(texts(given)[j] == t);
    }
    if texts(given).contains(t) {
        let j = choose|j: int| 0 <= j < given.len() && texts(given)[j] == t;
        assert(given.contains(given[j]));
        ranked_keeps_membership(given, given[j]);
        let k = choose|k: int| 0 <= k < sorted.len() && sorted[k] == given[j];
        assert(texts(sorted)[k] == t);
    }
}

/// Two ascending lists are equal where they hold the same texts: to compare the
/// lists is to compare what they hold.
pub proof fn equal_contents_are_equal_lists(a: Seq<Seq<char>>, b: Seq<Seq<char>>)
    requires
        ascends(a),
        ascends(b),
        forall|t: Seq<char>| #[trigger] a.contains(t) <==> b.contains(t),
    ensures
        a == b,
    decreases a.len(),
{
    if a.len() == 0 {
        if b.len() > 0 {
            assert(b.contains(b[0]));
            assert(a.contains(b[0]));
        }
    } else {
        assert(a.contains(a[a.len() - 1]));
        assert(b.contains(a.last()));
        let k = choose|k: int| 0 <= k < b.len() && b[k] == a.last();
        assert(b.contains(b[b.len() - 1]));
        assert(a.contains(b.last()));
        let j = choose|j: int| 0 <= j < a.len() && a[j] == b.last();
        if k < b.len() - 1 {
            assert(text_le(b[k], b[b.len() - 1]) && b[k] != b[b.len() - 1]);
            if j < a.len() - 1 {
                assert(text_le(a[j], a[a.len() - 1]));
            }
            text_le_antisymmetric(a.last(), b.last());
        }
        assert(a.last() == b.last());
        let x = a.drop_last();
        let y = b.drop_last();
        assert(a =~= x.push(a.last()));
        assert(b =~= y.push(b.last()));
        assert(ascends(x)) by {
            assert forall|i: int, j: int| 0 <= i < j < x.len() implies text_le(
                #[trigger] x[i],
                #[trigger] x[j],
            ) && x[i] != x[j] by {
                assert(a[i] != a[j]);
            }
        }
        assert(ascends(y)) by {
            assert forall|i: int, j: int| 0 <= i < j < y.len() implies text_le(
                #[trigger] y[i],
                #[trigger] y[j],
            ) && y[i] != y[j] by {
                assert(b[i] != b[j]);
            }
        }
        assert forall|t: Seq<char>| #[trigger] x.contains(t) <==> y.contains(t) by {
            if x.contains(t) {
                let i = choose|i: int| 0 <= i < x.len() && x[i] == t;
                assert(a[i] == t && a[i] != a[a.len() - 1]);
                assert(a.contains(t));
                assert(b.contains(t));
                let m = choose|m: int| 0 <= m < b.len() && b[m] == t;
                assert(y[m] == t);
            }
            if y.contains(t) {
                let i = choose|i: int| 0 <= i < y.len() && y[i] == t;
                assert(b[i] == t && b[i] != b[b.len() - 1]);
                assert(b.contains(t));
                assert(a.contains(t));
                let m = choose|m: int| 0 <= m < a.len() && a[m] == t;
                assert(x[m] == t);
            }
        }
        equal_contents_are_equal_lists(x, y);
    }
}

// --- What a database says of its schema --------------------------------------

/// A named group of definitions; `None` stands for a definition that is no text.
#[derive(Debug)]
pub struct Section {
    pub name: String,
    pub definitions: Vec<Option<String>>,
}

/// What a table's own report says.
#[derive(Debug)]
pub struct TableInfo {
    pub name: String,
    pub fields: Vec<Option<String>>,
    pub indexes: Vec<Option<String>>,
    pub events: Vec<Option<String>>,
}

/// The sections of a database's report that define its schema.
pub open spec fn schema_sections() -> Seq<Seq<char>> {
    seq![
        "tables"@,
        "users"@,
        "params"@,
        "functions"@,
        "analyzers"@,
        "events"@,
        "apis"@,
        "configs"@,
        "models"@,
        "accesses"@,
        "buckets"@,
    ]
}

/// One of the definitions is that text, but for white space around it.
pub open spec fn defines(definitions: Seq<Option<String>>, line: Seq<char>) -> bool {
    exists|i: int|
        0 <= i < definitions.len() && (#[trigger] definitions[i]) is Some && trimmed(
            definitions[i]->0@,
        ) == line
}

/// A schema section holds the definition.
pub open spec fn database_defines(sections: Seq<Section>, line: Seq<char>) -> bool {
    exists|i: int|
        0 <= i < sections.len() && schema_sections().contains((#[trigger] sections[i]).name@)
            && defines(sections[i].definitions@, line)
}

/// A table holds the definition, of a field, an index or an event.
pub open spec fn table_defines(table: TableInfo, line: Seq<char>) -> bool {
    ||| defines(table.fields@, line)
    ||| defines(table.indexes@, line)
    ||| defines(table.events@, line)
}

/// One of the tables holds the definition.
pub open spec fn tables_define(tables: Seq<TableInfo>, line: Seq<char>) -> bool {
    exists|i: int| 0 <= i < tables.len() && table_defines(#[trigger] tables[i], line)
}

fn is_schema_section(name: &str) -> (r: bool)
    ensures
        r == schema_sections().contains(name@),
{
    let names = [
        "tables",
        "users",
        "params",
        "functions",
        "analyzers",
        "events",
        "apis",
        "configs",
        "models",
        "accesses",
        "buckets",
    ];
    assert(names@.map_values(|s: &str| s@) =~= schema_sections());
    let mut i: usize = 0;
    while i < names.len()
        invariant
            i <= names@.len(),
            names@.map_values(|s: &str| s@) == schema_sections(),
            forall|k: int| 0 <= k < i ==> schema_sections()[k] != name@,
        decreases names@.len() - i,
    {
        assert(schema_sections()[i as int] == names@[i as int]@);
        if same_text(names[i], name) {
            return true;
        }
        i = i + 1;
    }
    false
}

fn add_definitions(out: &mut Vec<String>, definitions: &Vec<Option<String>>)
    ensures
        forall|t: Seq<char>| #[trigger]
            final(out).deep_view().contains(t) <==> old(out).deep_view().contains(t) || defines(
                definitions@,
                t,
            ),
{
    let ghost first = out.deep_view();
    let mut i: usize = 0;
    assert forall|t: Seq<char>| !defines(definitions@.take(0), t) by {}
    while i < definitions.len()
        invariant
            i <= definitions@.len(),
            forall|t: Seq<char>| #[trigger]
                out.deep_view().contains(t) <==> first.contains(t) || defines(
                    definitions@.take(i as int),
                    t,
                ),
        decreases definitions@.len() - i,
    {
        let ghost before = out.deep_view();
        let ghost seen = definitions@.take(i as int);
        let ghost more = definitions@.take(i + 1);
        assert(more =~= seen.push(definitions@[i as int]));
        assert forall|t: Seq<char>| defines(seen, t) implies #[trigger] defines(more, t) by {
            let k = choose|k: int|
                0 <= k < seen.len() && (#[trigger] seen[k]) is Some && trimmed(seen[k]->0@) == t;
            assert(more[k] == seen[k]);
        }
        if let Some(text) = &definitions[i] {
            let line = trim(text.as_str());
            let ghost l = line@;
            out.push(line);
            assert(out.deep_view() =~= before.push(l));
            assert(more[i as int] is Some && trimmed(more[i as int]->0@) == l);
            assert(defines(more, l));
            assert forall|t: Seq<char>| #[trigger]
                out.deep_view().contains(t) <==> first.contains(t) || defines(more, t) by {
                if before.push(l).contains(t) {
                    let k = choose|k: int|
                        0 <= k < before.push(l).len() && before.push(l)[k] == t;
                    if k < before.len() {
                        assert(before[k] == t);
                        assert(before.contains(t));
                    }
                }
                if before.contains(t) {
                    let k = choose|k: int| 0 <= k < before.len() && before[k] == t;
                    assert(before.push(l)[k] == t);
                }
                if defines(more, t) {
                    let k = choose|k: int|
                        0 <= k < more.len() && (#[trigger] more[k]) is Some && trimmed(
                            more[k]->0@,
                        ) == t;
                    if k < seen.len() {
                        assert(seen[k] == more[k]);
                        assert(defines(seen, t));
                        assert(before.contains(t));
                    } else {
                        assert(before.push(l)[before.len() as int] == t);
                    }
                }
            }
        } else {
            assert forall|t: Seq<char>| defines(more, t) implies #[trigger] defines(seen, t) by {
                let k = choose|k: int|
                    0 <= k < more.len() && (#[trigger] more[k]) is Some && trimmed(more[k]->0@) == t;
                assert(seen[k] == more[k]);
            }
            assert forall|t: Seq<char>| #[trigger]
                out.deep_view().contains(t) <==> first.contains(t) || defines(more, t) by {
                assert(defines(more, t) == defines(seen, t));
            }
        }
        i = i + 1;
    }
    assert(definitions@.take(i as int) == definitions@);
}

/// The definitions in a database's report, sorted, each once.
pub fn normalize_info(info: &Vec<Section>) -> (r: Vec<String>)
    ensures
        ascends(r.deep_view()),
        forall|t: Seq<char>| #[trigger] r.deep_view().contains(t) <==> database_defines(info@, t),
{
    let mut lines: Vec<String> = Vec::new();
    let mut i: usize = 0;
    assert forall|t: Seq<char>| !database_defines(info@.take(0), t) by {}
    while i < info.len()
        invariant
            i <= info@.len(),
            forall|t: Seq<char>| #[trigger]
                lines.deep_view().contains(t) <==> database_defines(info@.take(i as int), t),
        decreases info@.len() - i,
    {
        let ghost before = lines.deep_view();
        let ghost seen = info@.take(i as int);
        let ghost more = info@.take(i + 1);
        let ghost section = info@[i as int];
        assert(more =~= seen.push(section));
        let counts = is_schema_section(info[i].name.as_str());
        if counts {
            add_definitions(&mut lines, &info[i].definitions);
        }
        assert forall|t: Seq<char>| #[trigger]
            lines.deep_view().contains(t) <==> database_defines(more, t) by {
            assert(before.contains(t) <==> database_defines(seen, t));
            if database_defines(seen, t) {
                let k = choose|k: int|
                    0 <= k < seen.len() && schema_sections().contains((#[trigger] seen[k]).name@)
                        && defines(seen[k].definitions@, t);
                assert(more[k] == seen[k]);
            }
            if counts && defines(section.definitions@, t) {
                assert(more[i as int] == section);
            }
            if database_defines(more, t) {
                let k = choose|k: int|
                    0 <= k < more.len() && schema_sections().contains((#[trigger] more[k]).name@)
                        && defines(more[k].definitions@, t);
                if k < seen.len() {
                    assert(seen[k] == more[k]);
                }
            }
        }
        i = i + 1;
    }
    assert(info@.take(i as int) == info@);
    sorted_distinct(lines)
}

/// The definitions of the tables' fields, indexes and events, sorted, each once.
pub fn normalize_table_info(tables: &Vec<TableInfo>) -> (r: Vec<String>)
    ensures
        ascends(r.deep_view()),
        forall|t: Seq<char>| #[trigger] r.deep_view().contains(t) <==> tables_define(tables@, t),
{
    let mut lines: Vec<String> = Vec::new();
    let mut i: usize = 0;
    assert forall|t: Seq<char>| !tables_define(tables@.take(0), t) by {}
    while i < tables.len()
        invariant
            i <= tables@.len(),
            forall|t: Seq<char>| #[trigger]
                lines.deep_view().contains(t) <==> tables_define(tables@.take(i as int), t),
        decreases tables@.len() - i,
    {
        let ghost before = lines.deep_view();
        let ghost seen = tables@.take(i as int);
        let ghost more = tables@.take(i + 1);
        let ghost table = tables@[i as int];
        assert(more =~= seen.push(table));
        add_definitions(&mut lines, &tables[i].fields);
        let ghost with_fields = lines.deep_view();
        add_definitions(&mut lines, &tables[i].indexes);
        let ghost with_indexes = lines.deep_view();
        add_definitions(&mut lines, &tables[i].events);
        assert forall|t: Seq<char>| #[trigger]
            lines.deep_view().contains(t) <==> tables_define(more, t) by {
            assert(with_fields.contains(t) <==> before.contains(t) || defines(table.fields@, t));
            assert(with_indexes.contains(t) <==> with_fields.contains(t) || defines(
                table.indexes@,
                t,
            ));
            assert(before.contains(t) <==> tables_define(seen, t));
            if tables_define(seen, t) {
                let k = choose|k: int| 0 <= k < seen.len() && table_defines(#[trigger] seen[k], t);
                assert(more[k] == seen[k]);
            }
            if table_defines(table, t) {
                assert(more[i as int] == table);
            }
            if tables_define(more, t) {
                let k = choose|k: int| 0 <= k < more.len() && table_defines(#[trigger] more[k], t);
                if k < seen.len() {
                    assert(seen[k] == more[k]);
                }
            }
        }
        i = i + 1;
    }
    assert(tables@.take(i as int) == tables@);
    sorted_distinct(lines)
}

/// The number of sections in a database's report.
pub fn count_top_keys(info: &Vec<Section>) -> (r: usize)
    ensures
        r == info@.len(),
{
    info.len()
}

/// Whether two lists hold the same lines in the same order.
pub fn same_lines(a: &Vec<String>, b: &Vec<String>) -> (r: bool)
    ensures
        r == (a.deep_view() == b.deep_view()),
{
    if a.len() != b.len() {
        assert(a.deep_view().len() != b.deep_view().len());
        return false;
    }
    let mut i: usize = 0;
    while i < a.len()
        invariant
            i <= a@.len() == b@.len(),
            forall|k: int| 0 <= k < i ==> a@[k]@ == (#[trigger] b@[k])@,
        decreases a@.len() - i,
    {
        if !same_text(a[i].as_str(), b[i].as_str()) {
            assert(a.deep_view()[i as int] != b.deep_view()[i as int]);
            return false;
        }
        i = i + 1;
    }
    assert(a.deep_view() =~= b.deep_view());
    true
}

/// Whether two databases say the same of their schema: whatever the order and
/// the white space, each defines what the other does.
pub fn same_schema(a: &Vec<Section>, b: &Vec<Section>) -> (r: bool)
    ensures
        r == (forall|t: Seq<char>| #[trigger]
            database_defines(a@, t) <==> database_defines(b@, t)),
{
    let left = normalize_info(a);
    let right = normalize_info(b);
    let r = same_lines(&left, &right);
    proof {
        if r {
            assert forall|t: Seq<char>| #[trigger]
                database_defines(a@, t) <==> database_defines(b@, t) by {
                assert(left.deep_view().contains(t) <==> right.deep_view().contains(t));
            }
        } else if forall|t: Seq<char>| #[trigger]
            database_defines(a@, t) <==> database_defines(b@, t) {
            assert forall|t: Seq<char>| #[trigger]
                left.deep_view().contains(t) <==> right.deep_view().contains(t) by {
                assert(database_defines(a@, t) <==> database_defines(b@, t));
            }
            equal_contents_are_equal_lists(left.deep_view(), right.deep_view());
        }
    }
    r
}

// --- The database program ----------------------------------------------------

/// A place where the database program may be, and whether it is there.
#[derive(Debug)]
pub struct ProgramPath {
    pub path: String,
    pub exists: bool,
}

/// The places where the database program is looked for.
pub open spec fn usual_places() -> Seq<Seq<char>> {
    seq![
        "/Users/sbeardsley/.surrealdb/surreal"@,
        "/usr/local/bin/surreal"@,
        "/opt/homebrew/bin/surreal"@,
    ]
}

/// The places where the database program is looked for.
pub fn program_places() -> (r: Vec<String>)
    ensures
        r.deep_view() == usual_places(),
{
    let places = vec![
        "/Users/sbeardsley/.surrealdb/surreal".to_owned(),
        "/usr/local/bin/surreal".to_owned(),
        "/opt/homebrew/bin/surreal".to_owned(),
    ];
    assert(places.deep_view() =~= usual_places());
    places
}

/// The first of the places from position `i` on where the program is.
pub open spec fn first_present(places: Seq<ProgramPath>, i: int) -> Option<Seq<char>>
    decreases places.len() - i,
{
    if i < 0 || i >= places.len() {
        None
    } else if places[i].exists {
        Some(places[i].path@)
    } else {
        first_present(places, i + 1)
    }
}

/// The program to run: the one that was asked for, else one in the usual places,
/// else one on the search path.
pub open spec fn chosen_program(
    asked: Option<ProgramPath>,
    places: Seq<ProgramPath>,
    on_path: Option<String>,
) -> Result<Seq<char>, Seq<char>> {
    match asked {
        Some(p) => if p.exists {
            Ok(p.path@)
        } else {
            Err("--surreal path does not exist: "@ + p.path@)
        },
        None => match first_present(places, 0) {
            Some(path) => Ok(path),
            None => match on_path {
                Some(path) => Ok(path@),
                None => Err(
                    "could not locate the `surreal` binary; pass --surreal <path> to override"@,
                ),
            },
        },
    }
}

/// The program to run: the one that was asked for, else one in the usual places,
/// else one on the search path.
pub fn resolve_surreal(
    asked: Option<ProgramPath>,
    places: &Vec<ProgramPath>,
    on_path: Option<String>,
) -> (r: Result<String, String>)
    ensures
        match r {
            Ok(path) => chosen_program(asked, places@, on_path) == Ok::<Seq<char>, Seq<char>>(path@),
            Err(message) => chosen_program(asked, places@, on_path) == Err::<Seq<char>, Seq<char>>(
                message@,
            ),
        },
{
    if let Some(p) = asked {
        if p.exists {
            return Ok(p.path);
        }
        return Err("--surreal path does not exist: ".to_owned().concat(p.path.as_str()));
    }
    let mut i: usize = 0;
    while i < places.len()
        invariant
            i <= places@.len(),
            asked is None,
            first_present(places@, i as int) == first_present(places@, 0),
        decreases places@.len() - i,
    {
        if places[i].exists {
            return Ok(places[i].path.clone());
        }
        i = i + 1;
    }
    match on_path {
        Some(path) => Ok(path),
        None => Err(
            "could not locate the `surreal` binary; pass --surreal <path> to override".to_owned(),
        ),
    }
}

// --- Laws --------------------------------------------------------------------

/// Which sections of a report define the schema.
pub proof fn these_sections_define_the_schema(name: Seq<char>)
    ensures
        schema_sections().contains(name) <==> {
            ||| name == "tables"@
            ||| name == "users"@
            ||| name == "params"@
            ||| name == "functions"@
            ||| name == "analyzers"@
            ||| name == "events"@
            ||| name == "apis"@
            ||| name == "configs"@
            ||| name == "models"@
            ||| name == "accesses"@
            ||| name == "buckets"@
        },
{
    let list = schema_sections();
    assert(list[0] == "tables"@);
    assert(list[1] == "users"@);
    assert(list[2] == "params"@);
    assert(list[3] == "functions"@);
    assert(list[4] == "analyzers"@);
    assert(list[5] == "events"@);
    assert(list[6] == "apis"@);
    assert(list[7] == "configs"@);
    assert(list[8] == "models"@);
    assert(list[9] == "accesses"@);
    assert(list[10] == "buckets"@);
}

/// A definition counts wherever it stands: each one of a schema section, and each
/// one of a table's fields, indexes and events, but for white space around it.
pub proof fn every_definition_counts(
    sections: Seq<Section>,
    tables: Seq<TableInfo>,
    s: int,
    i: int,
)
    ensures
        0 <= s < sections.len() && 0 <= i < sections[s].definitions@.len()
            && sections[s].definitions@[i] is Some && schema_sections().contains(sections[s].name@)
            ==> database_defines(sections, trimmed(sections[s].definitions@[i]->0@)),
        0 <= s < tables.len() && 0 <= i < tables[s].fields@.len() && tables[s].fields@[i] is Some
            ==> tables_define(tables, trimmed(tables[s].fields@[i]->0@)),
        0 <= s < tables.len() && 0 <= i < tables[s].indexes@.len() && tables[s].indexes@[i] is Some
            ==> tables_define(tables, trimmed(tables[s].indexes@[i]->0@)),
        0 <= s < tables.len() && 0 <= i < tables[s].events@.len() && tables[s].events@[i] is Some
            ==> tables_define(tables, trimmed(tables[s].events@[i]->0@)),
{
    if 0 <= s < sections.len() && 0 <= i < sections[s].definitions@.len()
        && sections[s].definitions@[i] is Some && schema_sections().contains(sections[s].name@) {
        let line = trimmed(sections[s].definitions@[i]->0@);
        assert(defines(sections[s].definitions@, line));
    }
    if 0 <= s < tables.len() {
        if 0 <= i < tables[s].fields@.len() && tables[s].fields@[i] is Some {
            assert(defines(tables[s].fields@, trimmed(tables[s].fields@[i]->0@)));
            assert(table_defines(tables[s], trimmed(tables[s].fields@[i]->0@)));
        }
        if 0 <= i < tables[s].indexes@.len() && tables[s].indexes@[i] is Some {
            assert(defines(tables[s].indexes@, trimmed(tables[s].indexes@[i]->0@)));
            assert(table_defines(tables[s], trimmed(tables[s].indexes@[i]->0@)));
        }
        if 0 <= i < tables[s].events@.len() && tables[s].events@[i] is Some {
            assert(defines(tables[s].events@, trimmed(tables[s].events@[i]->0@)));
            assert(table_defines(tables[s], trimmed(tables[s].events@[i]->0@)));
        }
    }
}

/// Nothing else counts: what a database or a table defines is the text of one of
/// its definitions.
pub proof fn only_definitions_count(
    sections: Seq<Section>,
    tables: Seq<TableInfo>,
    line: Seq<char>,
)
    ensures
        database_defines(sections, line) ==> exists|s: int, i: int|
            {
                &&& 0 <= s < sections.len()
                &&& schema_sections().contains(sections[s].name@)
                &&& 0 <= i < sections[s].definitions@.len()
                &&& (#[trigger] sections[s].definitions@[i]) is Some
                &&& trimmed(sections[s].definitions@[i]->0@) == line
            },
        tables_define(tables, line) ==> exists|s: int|
            0 <= s < tables.len() && (defines((#[trigger] tables[s]).fields@, line) || defines(
                tables[s].indexes@,
                line,
            ) || defines(tables[s].events@, line)),
{
    if database_defines(sections, line) {
        let s = choose|s: int|
            0 <= s < sections.len() && schema_sections().contains((#[trigger] sections[s]).name@)
                && defines(sections[s].definitions@, line);
        let list = sections[s].definitions@;
        let i = choose|i: int|
            0 <= i < list.len() && (#[trigger] list[i]) is Some && trimmed(list[i]->0@) == line;
        assert(sections[s].definitions@[i] is Some);
    }
    if tables_define(tables, line) {
        let s = choose|s: int| 0 <= s < tables.len() && table_defines(#[trigger] tables[s], line);
        assert(defines(tables[s].fields@, line) || defines(tables[s].indexes@, line) || defines(
            tables[s].events@,
            line,
        ));
    }
}

proof fn lemma_first_present(places: Seq<ProgramPath>, i: int, k: int)
    requires
        0 <= i <= k <= places.len(),
        forall|j: int| i <= j < k ==> !(#[trigger] places[j]).exists,
        k == places.len() || places[k].exists,
    ensures
        first_present(places, i) == if k < places.len() {
            Some(places[k].path@)
        } else {
            None
        },
    decreases k - i,
{
    if i < k {
        assert(!places[i].exists);
        lemma_first_present(places, i + 1, k);
    }
}

/// Which program is run: the one that was asked for, where it is there, and no
/// other where it is not; else the first of the places where it is; else the one
/// on the search path, if any.
pub proof fn the_asked_for_program_comes_first(
    asked: Option<ProgramPath>,
    places: Seq<ProgramPath>,
    on_path: Option<String>,
    k: int,
)
    requires
        0 <= k <= places.len(),
        forall|j: int| 0 <= j < k ==> !(#[trigger] places[j]).exists,
        k == places.len() || places[k].exists,
    ensures
        asked is Some && asked->0.exists ==> chosen_program(asked, places, on_path) == Ok::<
            Seq<char>,
            Seq<char>,
        >(asked->0.path@),
        asked is Some && !asked->0.exists ==> chosen_program(asked, places, on_path) == Err::<
            Seq<char>,
            Seq<char>,
        >("--surreal path does not exist: "@ + asked->0.path@),
        asked is None && k < places.len() ==> chosen_program(asked, places, on_path) == Ok::<
            Seq<char>,
            Seq<char>,
        >(places[k].path@),
        asked is None && k == places.len() && on_path is Some ==> chosen_program(
            asked,
            places,
            on_path,
        ) == Ok::<Seq<char>, Seq<char>>(on_path->0@),
        asked is None && k == places.len() && on_path is None ==> chosen_program(
            asked,
            places,
            on_path,
        ) is Err,
{
    lemma_first_present(places, 0, k);
}

/// Where the program is looked for, in this order.
pub proof fn the_program_is_looked_for_in_these_places()
    ensures
        usual_places().len() == 3,
        usual_places()[0] == "/Users/sbeardsley/.surrealdb/surreal"@,
        usual_places()[1] == "/usr/local/bin/surreal"@,
        usual_places()[2] == "/opt/homebrew/bin/surreal"@,
{
}

} // verus!

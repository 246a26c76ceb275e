//! The statements that the adapters send, and what they make of the answers.
use vstd::prelude::*;
use crate::checksum::hex_digit;
use crate::storage::content::{
    concept_fields, concept_to_map, entity_fields, entity_to_map, episode_fields, episode_to_map,
    preference_fields, preference_to_map, procedure_fields, procedure_to_map, task_fields,
    task_to_map, Content, ValueView,
};
use crate::storage::error::{Error, ErrorView};
use crate::storage::record::{
    id_text, Concept, Entity, Episode, KeyView, Preference, Procedure, RecordId, RecordIdView, Task,
    Weight,
};
use crate::storage::graph::known_relations;
use crate::text::{
    contains_text, decimal, decimal_of, join, joined, joining_puts_the_separator_between, occurs_in,
};
use crate::time::{rfc3339_text, timestamp_rfc3339, Timestamp};

verus! {

// --- Record keys -------------------------------------------------------------

/// The lowercase hexadecimal numeral of `n` in `width` digits; higher digits
/// are cut off.
pub open spec fn hex_numeral(n: nat, width: nat) -> Seq<char>
    decreases width,
{
    if width == 0 {
        Seq::empty()
    } else {
        hex_numeral(n / 16, (width - 1) as nat).push(hex_digit((n % 16) as int))
    }
}

/// The low half of a fresh key: the low bits of the clock, mixed with the
/// process.
pub open spec fn key_low(nanos: u128, process: u32) -> u32 {
    ((nanos % 0x1_0000_0000) as u32) ^ ((process as u64 * 2_654_435_761u64 % 0x1_0000_0000) as u32)
}

/// A fresh record key of thirty-two hexadecimal digits.
pub open spec fn key_spec(nanos: u128, process: u32) -> Seq<char> {
    hex_numeral((nanos / 0x1_0000_0000) as nat, 24) + hex_numeral(
        key_low(nanos, process) as nat,
        8,
    )
}

fn hex_text(n: u128, width: u32) -> (r: String)
    ensures
        r@ == hex_numeral(n as nat, width as nat),
    decreases width,
{
    if width == 0 {
        String::new()
    } else {
        let mut out = hex_text(n / 16, width - 1);
        let d: u8 = (n % 16) as u8;
        if d < 10 {
            out.push((48u8 + d) as char);
        } else {
            out.push((87u8 + d) as char);
        }
        out
    }
}

/// A fresh record key for a process at a clock reading in nanoseconds since the
/// Unix epoch. It holds hexadecimal digits only, so that it needs no quoting in
/// a statement.
pub fn uuid_v4_like(nanos: u128, process: u32) -> (r: String)
    ensures
        r@ == key_spec(nanos, process),
        r@.len() == 32,
{
    let clock: u32 = (nanos % 0x1_0000_0000) as u32;
    assert(process as u64 * 2_654_435_761u64 <= u64::MAX) by (nonlinear_arith)
        requires
            process <= 0xffff_ffff,
    ;
    let mixed: u32 = (process as u64 * 2_654_435_761u64 % 0x1_0000_0000) as u32;
    let low: u32 = clock ^ mixed;
    proof {
        lemma_hex_len((nanos / 0x1_0000_0000) as nat, 24);
        lemma_hex_len(low as nat, 8);
    }
    hex_text(nanos / 0x1_0000_0000, 24).concat(hex_text(low as u128, 8).as_str())
}

proof fn lemma_hex_len(n: nat, width: nat)
    ensures
        hex_numeral(n, width).len() == width,
    decreases width,
{
    if width > 0 {
        lemma_hex_len(n / 16, (width - 1) as nat);
    }
}

/// Two numbers that fit the width have different numerals unless they are equal.
pub proof fn hex_numerals_differ(a: nat, b: nat, width: nat)
    requires
        hex_numeral(a, width) == hex_numeral(b, width),
    ensures
        a % vstd::arithmetic::power::pow(16, width) as nat == b % vstd::arithmetic::power::pow(
            16,
            width,
        ) as nat,
    decreases width,
{
    vstd::arithmetic::power::lemma_pow_positive(16, width);
    if width == 0 {
        vstd::arithmetic::power::lemma_pow0(16);
    } else {
        let w = (width - 1) as nat;
        let ha = hex_numeral(a / 16, w);
        let hb = hex_numeral(b / 16, w);
        let da = hex_digit((a % 16) as int);
        let db = hex_digit((b % 16) as int);
        assert(ha.push(da).drop_last() == ha);
        assert(hb.push(db).drop_last() == hb);
        assert(ha.push(da).last() == da);
        assert(hb.push(db).last() == db);
        assert(a % 16 == b % 16);
        hex_numerals_differ(a / 16, b / 16, w);
        let p = vstd::arithmetic::power::pow(16, w);
        vstd::arithmetic::power::lemma_pow_positive(16, w);
        assert(vstd::arithmetic::power::pow(16, width) == 16 * p) by {
            reveal(vstd::arithmetic::power::pow);
        }
        lemma_split_mod(a as int, p);
        lemma_split_mod(b as int, p);
    }
}

proof fn lemma_split_mod(a: int, p: int)
    requires
        a >= 0,
        p > 0,
    ensures
        a % (16 * p) == 16 * ((a / 16) % p) + a % 16,
{
    vstd::arithmetic::div_mod::lemma_mod_breakdown(a, 16, p);
}

/// Within one process two clock readings never give the same key.
pub proof fn keys_of_one_process_differ(a: u128, b: u128, process: u32)
    requires
        key_spec(a, process) == key_spec(b, process),
    ensures
        a == b,
{
    let ha = hex_numeral((a / 0x1_0000_0000) as nat, 24);
    let hb = hex_numeral((b / 0x1_0000_0000) as nat, 24);
    let la = hex_numeral(key_low(a, process) as nat, 8);
    let lb = hex_numeral(key_low(b, process) as nat, 8);
    lemma_hex_len((a / 0x1_0000_0000) as nat, 24);
    lemma_hex_len((b / 0x1_0000_0000) as nat, 24);
    assert((ha + la).take(24) =~= ha);
    assert((hb + lb).take(24) =~= hb);
    assert((ha + la).skip(24) =~= la);
    assert((hb + lb).skip(24) =~= lb);
    hex_numerals_differ((a / 0x1_0000_0000) as nat, (b / 0x1_0000_0000) as nat, 24);
    hex_numerals_differ(key_low(a, process) as nat, key_low(b, process) as nat, 8);
    assert(vstd::arithmetic::power::pow(16, 24) == 0x1_0000_0000_0000_0000_0000_0000) by {
        reveal_with_fuel(vstd::arithmetic::power::pow, 25);
    }
    assert(vstd::arithmetic::power::pow(16, 8) == 0x1_0000_0000) by {
        reveal_with_fuel(vstd::arithmetic::power::pow, 9);
    }
    let m = (process as u64 * 2_654_435_761u64 % 0x1_0000_0000) as u32;
    let x = (a % 0x1_0000_0000) as u32;
    let y = (b % 0x1_0000_0000) as u32;
    assert(x ^ m == y ^ m ==> x == y) by (bit_vector);
    let big: nat = 0x1_0000_0000_0000_0000_0000_0000;
    vstd::arithmetic::div_mod::lemma_small_mod((a / 0x1_0000_0000) as nat, big);
    vstd::arithmetic::div_mod::lemma_small_mod((b / 0x1_0000_0000) as nat, big);
    vstd::arithmetic::div_mod::lemma_small_mod(key_low(a, process) as nat, 0x1_0000_0000);
    vstd::arithmetic::div_mod::lemma_small_mod(key_low(b, process) as nat, 0x1_0000_0000);
    assert(a / 0x1_0000_0000 == b / 0x1_0000_0000);
    assert(x == y);
}

// --- Writing a record --------------------------------------------------------

/// How to write a record: the statement and its content, and the statement that
/// reads the record back.
#[derive(Debug)]
pub struct WriteRequest {
    /// The id that the record is written under.
    pub id: RecordId,
    /// The statement; its content is bound as `$content`.
    pub statement: String,
    pub content: Content,
    /// The statement that reads the record back.
    pub reread: String,
}

/// The id to write a record of `table` under: its own, or a fresh one.
pub open spec fn assigned_id(
    own: Option<RecordIdView>,
    table: Seq<char>,
    fresh_key: Seq<char>,
) -> RecordIdView {
    match own {
        Some(id) => id,
        None => RecordIdView { table, key: KeyView::Text(fresh_key) },
    }
}

impl WriteRequest {
    /// The request writes `content` under `id` and reads it back.
    pub open spec fn writes(self, id: RecordIdView, content: Seq<(Seq<char>, ValueView)>) -> bool {
        &&& self.id.deep_view() == id
        &&& self.statement@ == "UPSERT "@ + id_text(id) + " CONTENT $content"@
        &&& self.content.deep_view() == content
        &&& self.reread@ == "SELECT * FROM "@ + id_text(id)
    }
}

fn write_request(own: &Option<RecordId>, table: &str, fresh_key: &str, content: Content) -> (r:
    WriteRequest)
    ensures
        r.writes(assigned_id(own.deep_view(), table@, fresh_key@), content.deep_view()),
{
    let id = match own {
        Some(id) => id.copy(),
        None => RecordId::new(table, fresh_key),
    };
    let text = id.text();
    WriteRequest {
        id,
        statement: "UPSERT ".to_owned().concat(text.as_str()).concat(" CONTENT $content"),
        content,
        reread: "SELECT * FROM ".to_owned().concat(text.as_str()),
    }
}

/// How to write an episode; where it has no id yet it gets `fresh_key`.
pub fn write_episode(x: &Episode, fresh_key: &str) -> (r: WriteRequest)
    ensures
        r.writes(
            assigned_id(x.id.deep_view(), "episode"@, fresh_key@),
            episode_fields(x.deep_view()),
        ),
{
    write_request(&x.id, "episode", fresh_key, episode_to_map(x))
}

/// How to write an entity; where it has no id yet it gets `fresh_key`.
pub fn upsert_entity(x: &Entity, fresh_key: &str, now: Timestamp) -> (r: WriteRequest)
    ensures
        r.writes(
            assigned_id(x.id.deep_view(), "entity"@, fresh_key@),
            entity_fields(x.deep_view(), now),
        ),
{
    write_request(&x.id, "entity", fresh_key, entity_to_map(x, now))
}

/// How to write a concept; where it has no id yet it gets `fresh_key`.
pub fn upsert_concept(x: &Concept, fresh_key: &str) -> (r: WriteRequest)
    ensures
        r.writes(
            assigned_id(x.id.deep_view(), "concept"@, fresh_key@),
            concept_fields(x.deep_view()),
        ),
{
    write_request(&x.id, "concept", fresh_key, concept_to_map(x))
}

/// How to write a preference; where it has no id yet it gets `fresh_key`.
pub fn write_preference(x: &Preference, fresh_key: &str) -> (r: WriteRequest)
    ensures
        r.writes(
            assigned_id(x.id.deep_view(), "preference"@, fresh_key@),
            preference_fields(x.deep_view()),
        ),
{
    write_request(&x.id, "preference", fresh_key, preference_to_map(x))
}

/// How to write a task; where it has no id yet it gets `fresh_key`.
pub fn write_task(x: &Task, fresh_key: &str) -> (r: WriteRequest)
    ensures
        r.writes(
            assigned_id(x.id.deep_view(), "task"@, fresh_key@),
            task_fields(x.deep_view()),
        ),
{
    write_request(&x.id, "task", fresh_key, task_to_map(x))
}

/// How to write a procedure; where it has no id yet it gets `fresh_key`.
pub fn write_procedure(x: &Procedure, fresh_key: &str) -> (r: WriteRequest)
    ensures
        r.writes(
            assigned_id(x.id.deep_view(), "procedure"@, fresh_key@),
            procedure_fields(x.deep_view()),
        ),
{
    write_request(&x.id, "procedure", fresh_key, procedure_to_map(x))
}

/// The failure of an operation that could not read back what it wrote.
pub fn no_row_written(operation: &str) -> (r: Error)
    ensures
        r.deep_view() == ErrorView::Other(
            operation@ + ": SELECT after UPSERT returned no rows"@,
        ),
{
    Error::Other(operation.to_owned().concat(": SELECT after UPSERT returned no rows"))
}

/// Writing a record that has an id keeps that id; writing one without an id
/// puts it into the record's own table under the fresh key.
pub proof fn a_write_keeps_the_id(own: Option<RecordIdView>, table: Seq<char>, key: Seq<char>)
    ensures
        own is Some ==> Some(assigned_id(own, table, key)) == own,
        own is None ==> assigned_id(own, table, key) == (RecordIdView {
            table,
            key: KeyView::Text(key),
        }),
{
}

// --- Reading -----------------------------------------------------------------

/// The statement that reads the newest episodes of an agent `$a`, at most `$l`.
pub fn episodes_statement() -> (r: &'static str)
    ensures
        r@
            == "SELECT * FROM episode WHERE agent_id = $a ORDER BY valid_time_start DESC LIMIT $l"@,
{
    "SELECT * FROM episode WHERE agent_id = $a ORDER BY valid_time_start DESC LIMIT $l"
}

/// The statement that reads the entities of an agent `$a` with one of the names
/// `$n`.
pub fn entities_statement() -> (r: &'static str)
    ensures
        r@ == "SELECT * FROM entity WHERE agent_id = $a AND canonical_name IN $n"@,
{
    "SELECT * FROM entity WHERE agent_id = $a AND canonical_name IN $n"
}

/// The statement that reads the tasks of an agent `$a` that are pending at `$t`,
/// the oldest first.
pub fn pending_statement() -> (r: &'static str)
    ensures
        r@
            == "SELECT * FROM task WHERE agent_id = $a AND status = 'pending' AND trigger_value <= $t ORDER BY created_at ASC"@,
{
    "SELECT * FROM task WHERE agent_id = $a AND status = 'pending' AND trigger_value <= $t ORDER BY created_at ASC"
}

/// The statement that reads the newest procedures of an agent `$a`, at most `$l`.
pub fn procedures_statement() -> (r: &'static str)
    ensures
        r@ == "SELECT * FROM procedure WHERE agent_id = $a ORDER BY created_at DESC LIMIT $l"@,
{
    "SELECT * FROM procedure WHERE agent_id = $a ORDER BY created_at DESC LIMIT $l"
}

/// The statement that reads the agent of a record `$start`.
pub fn agent_statement() -> (r: &'static str)
    ensures
        r@ == "SELECT agent_id FROM $start LIMIT 1"@,
{
    "SELECT agent_id FROM $start LIMIT 1"
}

/// The statement that reads the ledger of migrations, by ascending version.
pub fn ledger_statement() -> (r: &'static str)
    ensures
        r@ == "SELECT * FROM engram_schema ORDER BY version ASC"@,
{
    "SELECT * FROM engram_schema ORDER BY version ASC"
}

/// The statement that reads the highest version of the ledger.
pub fn newest_version_statement() -> (r: &'static str)
    ensures
        r@ == "SELECT version FROM engram_schema ORDER BY version DESC LIMIT 1"@,
{
    "SELECT version FROM engram_schema ORDER BY version DESC LIMIT 1"
}

/// The statement that a store answers with one row whose `ok` is 1.
pub fn ping_statement() -> (r: &'static str)
    ensures
        r@ == "SELECT 1 AS ok FROM 1"@,
{
    "SELECT 1 AS ok FROM 1"
}

/// The statement that reads an episode as it was at `as_of`.
pub fn episode_at_statement(episode_id: &str, as_of: Timestamp) -> (r: String)
    requires
        as_of.valid(),
    ensures
        r@ == "SELECT * FROM "@ + episode_id@ + " VERSION d'"@ + rfc3339_text(
            as_of.seconds,
            as_of.nanos,
        ) + "'"@,
{
    episode_version_statement(episode_id, timestamp_rfc3339(as_of).as_str())
}

/// The statement that reads an episode at an instant given as RFC 3339 text.
pub fn episode_version_statement(episode_id: &str, instant: &str) -> (r: String)
    ensures
        r@ == "SELECT * FROM "@ + episode_id@ + " VERSION d'"@ + instant@ + "'"@,
{
    "SELECT * FROM ".to_owned().concat(episode_id).concat(" VERSION d'").concat(instant).concat("'")
}

/// The statement that reads a record as it is now.
pub fn current_statement(id: &str) -> (r: String)
    ensures
        r@ == "SELECT * FROM "@ + id@,
{
    "SELECT * FROM ".to_owned().concat(id)
}

/// Whether a failed versioned read is to be tried again on the current record:
/// only a missing table allows it, any other failure stands.
pub fn versioned_read_failure(message: &str) -> (r: Result<(), Error>)
    ensures
        match r {
            Ok(_) => occurs_in(message@, "does not exist"@),
            Err(e) => !occurs_in(message@, "does not exist"@) && e.deep_view()
                == ErrorView::Surreal(message@),
        },
{
    if contains_text(message, "does not exist") {
        Ok(())
    } else {
        Err(Error::Surreal(message.to_owned()))
    }
}

/// The current record was there at `as_of`: its transaction time is known and
/// does not lie after it.
pub open spec fn there_at(transaction_time: Option<Timestamp>, as_of: Timestamp) -> bool {
    match transaction_time {
        Some(t) => t.instant() <= as_of.instant(),
        None => false,
    }
}

/// The record as of an instant, from the record as it is now.
pub fn as_of_current(current: Option<Episode>, as_of: Timestamp) -> (r: Option<Episode>)
    ensures
        r == match current {
            Some(e) if there_at(e.transaction_time, as_of) => Some(e),
            _ => None,
        },
{
    match current {
        Some(e) => {
            let there = match e.transaction_time {
                Some(t) => !as_of.before(t),
                None => false,
            };
            if there {
                Some(e)
            } else {
                None
            }
        },
        None => None,
    }
}

/// A record never shows before the instant at which it was written, and once
/// there it stays.
pub proof fn history_only_grows(t: Option<Timestamp>, early: Timestamp, late: Timestamp)
    requires
        early.instant() <= late.instant(),
        there_at(t, early),
    ensures
        there_at(t, late),
{
}

/// The dimension of the vector indexes.
pub const INDEX_DIMENSION: usize = 768;

/// `v`, filled up with zeros to the dimension of the vector indexes; the bit
/// pattern of zero is zero.
pub open spec fn padded_spec(v: Seq<u32>) -> Seq<u32> {
    if v.len() < INDEX_DIMENSION {
        v + Seq::new((INDEX_DIMENSION - v.len()) as nat, |i: int| 0u32)
    } else {
        v
    }
}

/// An embedding, filled up with zeros to the dimension of the vector indexes.
pub fn padded(embedding: Vec<u32>) -> (r: Vec<u32>)
    ensures
        r@ == padded_spec(embedding@),
        r@.len() >= INDEX_DIMENSION,
{
    let ghost start = embedding@;
    let mut v = embedding;
    while v.len() < INDEX_DIMENSION
        invariant
            v@.len() >= start.len(),
            start.len() < INDEX_DIMENSION ==> v@.len() <= INDEX_DIMENSION,
            start.len() >= INDEX_DIMENSION ==> v@ == start,
            v@ == start + Seq::new((v@.len() - start.len()) as nat, |i: int| 0u32),
        decreases INDEX_DIMENSION - v@.len(),
    {
        v.push(0);
    }
    v
}

/// The statement for the `k` nearest concepts; the number stands in the
/// statement because the operator takes no parameter there.
pub fn semantic_statement(k: u32) -> (r: String)
    ensures
        r@ == "SELECT * FROM concept WHERE agent_id = $a AND embedding <|"@ + decimal_of(k as nat)
            + ", COSINE|> $v LIMIT $l"@,
{
    "SELECT * FROM concept WHERE agent_id = $a AND embedding <|".to_owned().concat(
        decimal(k as u128).as_str(),
    ).concat(", COSINE|> $v LIMIT $l")
}

/// The conditions of a preference query.
pub open spec fn preference_conditions(by_user: bool, by_category: bool) -> Seq<Seq<char>> {
    let agent = seq!["agent_id = $a"@];
    let user = if by_user {
        agent.push("user_id = $u"@)
    } else {
        agent
    };
    if by_category {
        user.push("category = $c"@)
    } else {
        user
    }
}

/// The statement for preferences, with a condition for each filter in use.
pub fn preferences_statement(by_user: bool, by_category: bool) -> (r: String)
    ensures
        r@ == "SELECT * FROM preference WHERE "@ + joined(
            preference_conditions(by_user, by_category),
            " AND "@,
        ) + " ORDER BY last_reinforced DESC LIMIT $l"@,
{
    let mut parts: Vec<String> = Vec::new();
    parts.push("agent_id = $a".to_owned());
    assert(parts.deep_view() =~= seq!["agent_id = $a"@]);
    if by_user {
        let ghost before = parts.deep_view();
        parts.push("user_id = $u".to_owned());
        assert(parts.deep_view() =~= before.push("user_id = $u"@));
    }
    if by_category {
        let ghost before = parts.deep_view();
        parts.push("category = $c".to_owned());
        assert(parts.deep_view() =~= before.push("category = $c"@));
    }
    "SELECT * FROM preference WHERE ".to_owned().concat(join(&parts, " AND ").as_str()).concat(
        " ORDER BY last_reinforced DESC LIMIT $l",
    )
}

/// The statement that relates two nodes; the nodes stand in it as record
/// literals.
pub fn relate_statement(from: &str, relation: &str, to: &str) -> (r: String)
    ensures
        r@ == "RELATE "@ + from@ + "->"@ + relation@ + "->"@ + to@ + " SET weight = $w"@,
{
    "RELATE ".to_owned().concat(from).concat("->").concat(relation).concat("->").concat(to).concat(
        " SET weight = $w",
    )
}

/// The weight of a relation; one half where none is given.
pub fn relation_weight(weight: Option<Weight>) -> (r: Weight)
    ensures
        r == match weight {
            Some(w) => w,
            None => Weight { millionths: 500_000 },
        },
{
    match weight {
        Some(w) => w,
        None => Weight { millionths: 500_000 },
    }
}

/// The tables that hold data, that is, all but the schema ledger.
pub open spec fn data_tables() -> Seq<Seq<char>> {
    seq![
        "episode"@,
        "entity"@,
        "concept"@,
        "preference"@,
        "procedure"@,
        "task"@,
        "episode_relates_to_concept"@,
        "episode_precedes_episode"@,
        "episode_mentions_entity"@,
        "concept_connects_to_concept"@,
        "concept_about_entity"@,
        "entity_relates_to_entity"@,
        "episode_triggered_task"@,
    ]
}

/// The statements that delete all data and keep the schema ledger.
pub fn clear_statements() -> (r: Vec<String>)
    ensures
        r.deep_view() == data_tables().map_values(|t: Seq<char>| "DELETE "@ + t),
{
    let tables = [
        "episode",
        "entity",
        "concept",
        "preference",
        "procedure",
        "task",
        "episode_relates_to_concept",
        "episode_precedes_episode",
        "episode_mentions_entity",
        "concept_connects_to_concept",
        "concept_about_entity",
        "entity_relates_to_entity",
        "episode_triggered_task",
    ];
    assert forall|i: int| 0 <= i < 13 implies (#[trigger] tables@[i])@ == data_tables()[i] by {}
    let mut out: Vec<String> = Vec::new();
    let mut i: usize = 0;
    while i < 13
        invariant
            i <= 13,
            tables@.len() == 13,
            out@.len() == i,
            forall|k: int| 0 <= k < 13 ==> (#[trigger] tables@[k])@ == data_tables()[k],
            forall|k: int| 0 <= k < i ==> (#[trigger] out@[k])@ == "DELETE "@ + data_tables()[k],
        decreases 13 - i,
    {
        out.push("DELETE ".to_owned().concat(tables[i]));
        assert(tables@[i as int]@ == data_tables()[i as int]);
        i = i + 1;
    }
    assert(out.deep_view() =~= data_tables().map_values(|t: Seq<char>| "DELETE "@ + t));
    out
}

/// Clearing the data never touches the schema ledger.
pub proof fn clearing_keeps_the_ledger()
    ensures
        !data_tables().contains("engram_schema"@),
{
    reveal_strlit("engram_schema");
    reveal_strlit("episode");
    reveal_strlit("entity");
    reveal_strlit("concept");
    reveal_strlit("preference");
    reveal_strlit("procedure");
    reveal_strlit("task");
    reveal_strlit("episode_relates_to_concept");
    reveal_strlit("episode_precedes_episode");
    reveal_strlit("episode_mentions_entity");
    reveal_strlit("concept_connects_to_concept");
    reveal_strlit("concept_about_entity");
    reveal_strlit("entity_relates_to_entity");
    reveal_strlit("episode_triggered_task");
    assert forall|i: int| 0 <= i < data_tables().len() implies #[trigger] data_tables()[i]
        != "engram_schema"@ by {
        assert("engram_schema"@.len() == 13);
        assert(data_tables()[i].len() != 13);
    }
}

/// What a health check makes of the answer: it must be one.
pub fn ping_result(answer: Option<i64>) -> (r: Result<(), Error>)
    ensures
        match r {
            Ok(_) => answer == Some(1i64),
            Err(e) => answer != Some(1i64) && e.deep_view() == ErrorView::Other(
                "ping returned wrong value"@,
            ),
        },
{
    match answer {
        Some(1) => Ok(()),
        _ => Err(Error::Other("ping returned wrong value".to_owned())),
    }
}

// --- Laws --------------------------------------------------------------------

/// A preference query has a condition for each filter in use: always the agent's,
/// the user's exactly where it is by user, and the category's exactly where it is
/// by category, whatever the other filter is.
pub proof fn every_filter_has_its_condition(by_user: bool, by_category: bool)
    ensures
        ({
            let conditions = preference_conditions(by_user, by_category);
            &&& conditions.contains("agent_id = $a"@)
            &&& conditions.contains("user_id = $u"@) <==> by_user
            &&& conditions.contains("category = $c"@) <==> by_category
            &&& forall|c: Seq<char>| #[trigger]
                conditions.contains(c) ==> c == "agent_id = $a"@ || c == "user_id = $u"@ || c
                    == "category = $c"@
            &&& joined(conditions, " AND "@) == "agent_id = $a"@ + (if by_user {
                " AND "@ + "user_id = $u"@
            } else {
                Seq::empty()
            }) + (if by_category {
                " AND "@ + "category = $c"@
            } else {
                Seq::empty()
            })
        }),
{
    let conditions = preference_conditions(by_user, by_category);
    let agent = "agent_id = $a"@;
    let user = "user_id = $u"@;
    let category = "category = $c"@;
    let sep = " AND "@;
    reveal_strlit("agent_id = $a");
    reveal_strlit("user_id = $u");
    reveal_strlit("category = $c");
    assert(agent[0] != user[0] && agent[0] != category[0] && user[0] != category[0]);
    assert(conditions[0] == agent);
    if by_user {
        assert(conditions[1] == user);
        joining_puts_the_separator_between(seq![agent], seq![user], agent, sep);
        joining_puts_the_separator_between(seq![agent], seq![user], user, sep);
        assert(seq![agent] + seq![user] =~= seq![agent].push(user));
        if by_category {
            assert(conditions[2] == category);
            let two = seq![agent].push(user);
            joining_puts_the_separator_between(two, seq![category], category, sep);
            assert(conditions =~= two + seq![category]);
        } else {
            assert(conditions =~= seq![agent] + seq![user]);
        }
    } else if by_category {
        assert(conditions[1] == category);
        joining_puts_the_separator_between(seq![agent], seq![category], agent, sep);
        joining_puts_the_separator_between(seq![agent], seq![category], category, sep);
        assert(conditions =~= seq![agent] + seq![category]);
    } else {
        joining_puts_the_separator_between(seq![agent], seq![], agent, sep);
    }
    let all = joined(conditions, sep);
    assert(all =~= agent + (if by_user {
        sep + user
    } else {
        Seq::empty()
    }) + (if by_category {
        sep + category
    } else {
        Seq::empty()
    }));
    assert(conditions.len() == 1 + (if by_user {
        1int
    } else {
        0
    }) + (if by_category {
        1int
    } else {
        0
    }));
}

/// A record that was written is there from the instant of its writing on, and not
/// before; one of which no such instant is known is not there.
pub proof fn a_record_is_there_once_it_was_written(t: Timestamp, as_of: Timestamp)
    ensures
        there_at(Some(t), as_of) <==> t.instant() <= as_of.instant(),
        !there_at(None, as_of),
{
}

/// A vector keeps its numbers and gets zeros behind them, up to the dimension of
/// the indexes; one that is long enough stays as it is.
pub proof fn padding_adds_zeros_only(v: Seq<u32>)
    ensures
        v.len() <= padded_spec(v).len(),
        padded_spec(v).len() == if v.len() < 768 {
            768
        } else {
            v.len()
        },
        forall|i: int| 0 <= i < v.len() ==> padded_spec(v)[i] == #[trigger] v[i],
        forall|i: int|
            v.len() <= i < padded_spec(v).len() ==> #[trigger] padded_spec(v)[i] == 0,
{
}

/// Clearing deletes every record and every relation.
pub proof fn clearing_deletes_all_data(table: Seq<char>)
    ensures
        data_tables().contains(table) <==> {
            ||| table == "episode"@
            ||| table == "entity"@
            ||| table == "concept"@
            ||| table == "preference"@
            ||| table == "procedure"@
            ||| table == "task"@
            ||| known_relations().contains(table)
        },
{
    let tables = data_tables();
    let relations = known_relations();
    assert forall|i: int| 0 <= i < 7 implies #[trigger] relations[i] == tables[6 + i] by {}
    if relations.contains(table) {
        let i = choose|i: int| 0 <= i < relations.len() && relations[i] == table;
        assert(tables[6 + i] == table);
    }
    if tables.contains(table) {
        let i = choose|i: int| 0 <= i < tables.len() && tables[i] == table;
        if i >= 6 {
            assert(relations[i - 6] == table);
        }
    }
    assert(tables.contains(tables[0]) && tables.contains(tables[1]) && tables.contains(tables[2])
        && tables.contains(tables[3]) && tables.contains(tables[4]) && tables.contains(tables[5]));
}

/// The hexadecimal numeral of a number has the digits that are asked for, each of
/// them the digit of its place.
pub proof fn a_hexadecimal_numeral_has_its_digits(n: nat, width: nat)
    ensures
        hex_numeral(n, width).len() == width,
        width > 0 ==> hex_numeral(n, width).last() == hex_digit((n % 16) as int),
        width > 0 ==> hex_numeral(n, width).drop_last() == hex_numeral(n / 16, (width - 1) as nat),
    decreases width,
{
    if width > 0 {
        a_hexadecimal_numeral_has_its_digits(n / 16, (width - 1) as nat);
        assert(hex_numeral(n, width).drop_last() =~= hex_numeral(n / 16, (width - 1) as nat));
    }
}

/// A fresh key has thirty-two digits, the first twenty-four of which are those of
/// the clock.
pub proof fn a_key_has_thirty_two_digits(nanos: u128, process: u32)
    ensures
        key_spec(nanos, process).len() == 32,
        key_spec(nanos, process).take(24) == hex_numeral((nanos / 0x1_0000_0000) as nat, 24),
{
    a_hexadecimal_numeral_has_its_digits((nanos / 0x1_0000_0000) as nat, 24);
    a_hexadecimal_numeral_has_its_digits(key_low(nanos, process) as nat, 8);
    assert(key_spec(nanos, process).take(24) =~= hex_numeral((nanos / 0x1_0000_0000) as nat, 24));
}

impl WriteRequest {
    /// A record is written whole, under its id, and read back under the same.
    pub proof fn a_write_replaces_the_record(
        self,
        id: RecordIdView,
        content: Seq<(Seq<char>, ValueView)>,
    )
        ensures
            self.writes(id, content) <==> {
                &&& self.id.deep_view() == id
                &&& self.statement@ == "UPSERT "@ + id_text(id) + " CONTENT $content"@
                &&& self.content.deep_view() == content
                &&& self.reread@ == "SELECT * FROM "@ + id_text(id)
            },
    {
    }
}

/// The last eight digits of a key are those of the low half of the clock, mixed
/// with the process.
pub proof fn a_key_ends_with_clock_and_process(nanos: u128, process: u32)
    ensures
        key_spec(nanos, process).skip(24) == hex_numeral(
            (((nanos % 0x1_0000_0000) as u32) ^ ((process as u64 * 2_654_435_761u64
                % 0x1_0000_0000) as u32)) as nat,
            8,
        ),
{
    a_hexadecimal_numeral_has_its_digits((nanos / 0x1_0000_0000) as nat, 24);
    assert(key_spec(nanos, process).skip(24) =~= hex_numeral(key_low(nanos, process) as nat, 8));
}

} // verus!

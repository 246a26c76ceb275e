//! Reading records from rows: which columns a row of each kind has, and the
//! record that a row holds.
use vstd::prelude::*;
use crate::storage::content::{Content, FieldValue, ValueView};
use crate::storage::error::{Error, ErrorView};
use crate::storage::migrations::LedgerRow;
use crate::storage::record::{
    clone_embedding, clone_ids, Concept, ConceptView, Entity, EntityView, Episode, EpisodeView,
    Preference, PreferenceDirection, PreferenceView, Procedure, ProcedureView, RecordId,
    RecordIdView, SignalTier, Task, TaskStatus, TaskView, Weight,
};
use crate::text::{clone_texts, same_text};
use crate::time::Timestamp;

verus! {

/// What a row holds: values by name.
pub type RowView = Seq<(Seq<char>, ValueView)>;

// --- Columns -----------------------------------------------------------------

/// What a column holds.
#[derive(Debug, Clone, Copy, PartialEq, Eq, Structural)]
pub enum ColumnKind {
    Text,
    Bool,
    /// A number that counts something.
    Count,
    /// The number of a tier.
    Tier,
    /// The name of a direction.
    Direction,
    /// The name of a status.
    Status,
    Real,
    Time,
    /// The bit patterns of single-precision numbers.
    Reals,
    Record,
    Records,
    Texts,
    /// A JSON text.
    Json,
    /// JSON texts.
    Jsons,
}

/// A column of a table.
#[derive(Debug, Clone, Copy)]
pub struct Column {
    pub name: &'static str,
    pub kind: ColumnKind,
    /// Whether every row has a value there.
    pub required: bool,
}

/// What a [`Column`] says.
pub struct ColumnView {
    pub name: Seq<char>,
    pub kind: ColumnKind,
    pub required: bool,
}

impl DeepView for Column {
    type V = ColumnView;

    open spec fn deep_view(&self) -> ColumnView {
        ColumnView { name: self.name@, kind: self.kind, required: self.required }
    }
}

/// A column.
pub open spec fn column(name: Seq<char>, kind: ColumnKind, required: bool) -> ColumnView {
    ColumnView { name, kind, required }
}

/// The value that a row has under a name: the last one, where it was set twice.
#[verifier::opaque]
pub open spec fn value_of(row: RowView, name: Seq<char>) -> Option<ValueView>
    decreases row.len(),
{
    if row.len() == 0 {
        None
    } else if row.last().0 == name {
        Some(row.last().1)
    } else {
        value_of(row.drop_last(), name)
    }
}

/// The value that a row has under a name.
fn find_value<'a>(row: &'a Content, name: &str) -> (r: Option<&'a FieldValue>)
    ensures
        value_of(row.deep_view(), name@) == (match r {
            Some(v) => Some(v.deep_view()),
            None => None,
        }),
{
    let ghost all = row.deep_view();
    let mut n: usize = row.fields.len();
    assert(all.take(n as int) =~= all);
    while n > 0
        invariant
            n <= row.fields@.len(),
            all == row.deep_view(),
            value_of(all, name@) == value_of(all.take(n as int), name@),
        decreases n,
    {
        reveal(value_of);
        let i: usize = n - 1;
        let ghost front = all.take(n as int);
        assert(front.drop_last() =~= all.take(i as int));
        assert(front.last() == row.fields@[i as int].deep_view());
        if same_text(row.fields[i].name.as_str(), name) {
            return Some(&row.fields[i].value);
        }
        n = i;
    }
    reveal(value_of);
    None
}

/// Whether a value is of a kind.
pub open spec fn value_fits(kind: ColumnKind, v: ValueView) -> bool {
    match kind {
        ColumnKind::Text => v is Text,
        ColumnKind::Bool => v is Bool,
        ColumnKind::Count => v matches ValueView::Int(n) && 0 <= n <= u32::MAX,
        ColumnKind::Tier => v matches ValueView::Int(n) && 1 <= n <= 5,
        ColumnKind::Direction => v matches ValueView::Text(t) && exists|d: PreferenceDirection|
            t == #[trigger] d.name(),
        ColumnKind::Status => v matches ValueView::Text(t) && exists|s: TaskStatus|
            t == #[trigger] s.name(),
        ColumnKind::Real => v is Real,
        ColumnKind::Time => v is Time,
        ColumnKind::Reals => v is Reals,
        ColumnKind::Record => v is Record,
        ColumnKind::Records => v is Records,
        ColumnKind::Texts => v is Texts,
        ColumnKind::Json => v is Json,
        ColumnKind::Jsons => v is Jsons,
    }
}

/// Whether a value is of a kind.
fn fits(kind: ColumnKind, v: &FieldValue) -> (r: bool)
    ensures
        r == value_fits(kind, v.deep_view()),
{
    match (kind, v) {
        (ColumnKind::Text, FieldValue::Text(_)) => true,
        (ColumnKind::Bool, FieldValue::Bool(_)) => true,
        (ColumnKind::Count, FieldValue::Int(n)) => 0 <= *n && *n <= 0xffff_ffff,
        (ColumnKind::Tier, FieldValue::Int(n)) => 1 <= *n && *n <= 5,
        (ColumnKind::Direction, FieldValue::Text(t)) => {
            PreferenceDirection::from_name(t.as_str()).is_some()
        },
        (ColumnKind::Status, FieldValue::Text(t)) => TaskStatus::from_name(t.as_str()).is_some(),
        (ColumnKind::Real, FieldValue::Real(_)) => true,
        (ColumnKind::Time, FieldValue::Time(_)) => true,
        (ColumnKind::Reals, FieldValue::Reals(_)) => true,
        (ColumnKind::Record, FieldValue::Record(_)) => true,
        (ColumnKind::Records, FieldValue::Records(_)) => true,
        (ColumnKind::Texts, FieldValue::Texts(_)) => true,
        (ColumnKind::Json, FieldValue::Json(_)) => true,
        (ColumnKind::Jsons, FieldValue::Jsons(_)) => true,
        _ => false,
    }
}

/// Whether a row has in a column what belongs there.
pub open spec fn column_fits(row: RowView, c: ColumnView) -> bool {
    match value_of(row, c.name) {
        Some(v) => value_fits(c.kind, v),
        None => !c.required,
    }
}

/// The first column in which a row has not what belongs there.
pub open spec fn first_misfit(
    row: RowView,
    columns: Seq<ColumnView>,
) -> Option<Seq<char>>
    decreases columns.len(),
{
    if columns.len() == 0 {
        None
    } else if !column_fits(row, columns[0]) {
        Some(columns[0].name)
    } else {
        first_misfit(row, columns.drop_first())
    }
}

/// The first column in which a row has not what belongs there.
fn find_misfit(row: &Content, columns: &Vec<Column>) -> (r: Option<&'static str>)
    ensures
        first_misfit(row.deep_view(), columns.deep_view()) == (match r {
            Some(name) => Some(name@),
            None => None,
        }),
{
    let ghost cols = columns.deep_view();
    let mut i: usize = 0;
    assert(cols.skip(0) =~= cols);
    while i < columns.len()
        invariant
            i <= columns@.len(),
            cols == columns.deep_view(),
            first_misfit(row.deep_view(), cols) == first_misfit(
                row.deep_view(),
                cols.skip(i as int),
            ),
        decreases columns@.len() - i,
    {
        let ghost rest = cols.skip(i as int);
        assert(rest[0] == columns@[i as int].deep_view());
        assert(rest.drop_first() =~= cols.skip(i + 1));
        let good = match find_value(row, columns[i].name) {
            Some(v) => fits(columns[i].kind, v),
            None => !columns[i].required,
        };
        if !good {
            return Some(columns[i].name);
        }
        i = i + 1;
    }
    None
}

proof fn lemma_all_fit(row: RowView, columns: Seq<ColumnView>)
    requires
        first_misfit(row, columns) is None,
    ensures
        forall|i: int| 0 <= i < columns.len() ==> column_fits(row, #[trigger] columns[i]),
    decreases columns.len(),
{
    if columns.len() > 0 {
        let rest = columns.drop_first();
        lemma_all_fit(row, rest);
        assert forall|i: int| 0 <= i < columns.len() implies column_fits(
            row,
            #[trigger] columns[i],
        ) by {
            if i > 0 {
                assert(columns[i] == rest[i - 1]);
            }
        }
    }
}

/// What is said of a column in which a row has not what belongs there.
pub open spec fn misfit_text(name: Seq<char>) -> Seq<char> {
    "field "@ + name + " is missing or of another type"@
}

fn misfit_message(name: &str) -> (r: String)
    ensures
        r@ == misfit_text(name@),
{
    "field ".to_owned().concat(name).concat(" is missing or of another type")
}

// --- Values by name ----------------------------------------------------------

/// What a row has under a name, where it is a text.
pub open spec fn text_at(row: RowView, name: Seq<char>) -> Option<Seq<char>> {
    match value_of(row, name) {
        Some(ValueView::Text(s)) => Some(s),
        _ => None,
    }
}

fn text_field(row: &Content, name: &str) -> (r: Option<String>)
    ensures
        r.deep_view() == text_at(row.deep_view(), name@),
{
    match find_value(row, name) {
        Some(FieldValue::Text(s)) => Some(s.clone()),
        _ => None,
    }
}

/// What a row has under a name, where it is a truth value.
pub open spec fn bool_at(row: RowView, name: Seq<char>) -> Option<bool> {
    match value_of(row, name) {
        Some(ValueView::Bool(b)) => Some(b),
        _ => None,
    }
}

fn bool_field(row: &Content, name: &str) -> (r: Option<bool>)
    ensures
        r == bool_at(row.deep_view(), name@),
{
    match find_value(row, name) {
        Some(FieldValue::Bool(b)) => Some(*b),
        _ => None,
    }
}

/// What a row has under a name, where it is a number.
pub open spec fn real_at(row: RowView, name: Seq<char>) -> Option<Weight> {
    match value_of(row, name) {
        Some(ValueView::Real(w)) => Some(w),
        _ => None,
    }
}

fn real_field(row: &Content, name: &str) -> (r: Option<Weight>)
    ensures
        r == real_at(row.deep_view(), name@),
{
    match find_value(row, name) {
        Some(FieldValue::Real(w)) => Some(*w),
        _ => None,
    }
}

/// What a row has under a name, where it is a time.
pub open spec fn time_at(row: RowView, name: Seq<char>) -> Option<Timestamp> {
    match value_of(row, name) {
        Some(ValueView::Time(t)) => Some(t),
        _ => None,
    }
}

fn time_field(row: &Content, name: &str) -> (r: Option<Timestamp>)
    ensures
        r == time_at(row.deep_view(), name@),
{
    match find_value(row, name) {
        Some(FieldValue::Time(t)) => Some(*t),
        _ => None,
    }
}

/// What a row has under a name, where it is an embedding.
pub open spec fn reals_at(row: RowView, name: Seq<char>) -> Option<Seq<u32>> {
    match value_of(row, name) {
        Some(ValueView::Reals(v)) => Some(v),
        _ => None,
    }
}

fn reals_field(row: &Content, name: &str) -> (r: Option<Vec<u32>>)
    ensures
        r.deep_view() == reals_at(row.deep_view(), name@),
{
    match find_value(row, name) {
        Some(FieldValue::Reals(v)) => Some(clone_embedding(v)),
        _ => None,
    }
}

/// What a row has under a name, where it is a record.
pub open spec fn record_at(row: RowView, name: Seq<char>) -> Option<RecordIdView> {
    match value_of(row, name) {
        Some(ValueView::Record(id)) => Some(id),
        _ => None,
    }
}

fn record_field(row: &Content, name: &str) -> (r: Option<RecordId>)
    ensures
        r.deep_view() == record_at(row.deep_view(), name@),
{
    match find_value(row, name) {
        Some(FieldValue::Record(id)) => Some(id.copy()),
        _ => None,
    }
}

/// What a row has under a name, where it is records.
pub open spec fn records_at(row: RowView, name: Seq<char>) -> Option<Seq<RecordIdView>> {
    match value_of(row, name) {
        Some(ValueView::Records(ids)) => Some(ids),
        _ => None,
    }
}

fn records_field(row: &Content, name: &str) -> (r: Option<Vec<RecordId>>)
    ensures
        r.deep_view() == records_at(row.deep_view(), name@),
{
    match find_value(row, name) {
        Some(FieldValue::Records(ids)) => Some(clone_ids(ids)),
        _ => None,
    }
}

/// What a row has under a name, where it is texts.
pub open spec fn texts_at(row: RowView, name: Seq<char>) -> Option<Seq<Seq<char>>> {
    match value_of(row, name) {
        Some(ValueView::Texts(v)) => Some(v),
        _ => None,
    }
}

fn texts_field(row: &Content, name: &str) -> (r: Option<Vec<String>>)
    ensures
        r.deep_view() == texts_at(row.deep_view(), name@),
{
    match find_value(row, name) {
        Some(FieldValue::Texts(v)) => Some(clone_texts(v)),
        _ => None,
    }
}

/// What a row has under a name, where it is a JSON text.
pub open spec fn json_at(row: RowView, name: Seq<char>) -> Option<Seq<char>> {
    match value_of(row, name) {
        Some(ValueView::Json(s)) => Some(s),
        _ => None,
    }
}

fn json_field(row: &Content, name: &str) -> (r: Option<String>)
    ensures
        r.deep_view() == json_at(row.deep_view(), name@),
{
    match find_value(row, name) {
        Some(FieldValue::Json(s)) => Some(s.clone()),
        _ => None,
    }
}

/// What a row has under a name, where it is JSON texts.
pub open spec fn jsons_at(row: RowView, name: Seq<char>) -> Option<Seq<Seq<char>>> {
    match value_of(row, name) {
        Some(ValueView::Jsons(v)) => Some(v),
        _ => None,
    }
}

fn jsons_field(row: &Content, name: &str) -> (r: Option<Vec<String>>)
    ensures
        r.deep_view() == jsons_at(row.deep_view(), name@),
{
    match find_value(row, name) {
        Some(FieldValue::Jsons(v)) => Some(clone_texts(v)),
        _ => None,
    }
}

/// What a row has under a name, where it counts something.
pub open spec fn count_at(row: RowView, name: Seq<char>) -> Option<u32> {
    match value_of(row, name) {
        Some(ValueView::Int(n)) if 0 <= n <= u32::MAX => Some(n as u32),
        _ => None,
    }
}

fn count_field(row: &Content, name: &str) -> (r: Option<u32>)
    ensures
        r == count_at(row.deep_view(), name@),
{
    match find_value(row, name) {
        Some(FieldValue::Int(n)) if 0 <= *n && *n <= 0xffff_ffff => Some(*n as u32),
        _ => None,
    }
}

/// The tier with a number.
pub open spec fn tier_numbered(n: int) -> SignalTier {
    choose|t: SignalTier| #[trigger] t.number_spec() == n
}

/// The direction with a name.
pub open spec fn direction_named(name: Seq<char>) -> PreferenceDirection {
    choose|d: PreferenceDirection| name == #[trigger] d.name()
}

/// The status with a name.
pub open spec fn status_named(name: Seq<char>) -> TaskStatus {
    choose|s: TaskStatus| name == #[trigger] s.name()
}

pub(crate) proof fn lemma_tier_numbered(t: SignalTier)
    ensures
        tier_numbered(t.number_spec() as int) == t,
{
    SignalTier::numbers_differ(t, tier_numbered(t.number_spec() as int));
}

pub(crate) proof fn lemma_direction_named(d: PreferenceDirection)
    ensures
        direction_named(d.name()) == d,
{
    PreferenceDirection::names_differ(d, direction_named(d.name()));
}

pub(crate) proof fn lemma_status_named(s: TaskStatus)
    ensures
        status_named(s.name()) == s,
{
    TaskStatus::names_differ(s, status_named(s.name()));
}

/// What a row has under a name, where it is the number of a tier.
pub open spec fn tier_at(row: RowView, name: Seq<char>) -> Option<SignalTier> {
    match value_of(row, name) {
        Some(ValueView::Int(n)) if 1 <= n <= 5 => Some(tier_numbered(n as int)),
        _ => None,
    }
}

fn tier_field(row: &Content, name: &str) -> (r: Option<SignalTier>)
    ensures
        r == tier_at(row.deep_view(), name@),
{
    match find_value(row, name) {
        Some(FieldValue::Int(n)) => match SignalTier::from_stored(*n) {
            Ok(t) => {
                proof {
                    lemma_tier_numbered(t);
                }
                Some(t)
            },
            Err(_) => None,
        },
        _ => None,
    }
}

/// What a row has under a name, where it is the name of a direction.
pub open spec fn direction_at(row: RowView, name: Seq<char>) -> Option<PreferenceDirection> {
    match value_of(row, name) {
        Some(ValueView::Text(t)) if exists|d: PreferenceDirection| t == #[trigger] d.name() => Some(
            direction_named(t),
        ),
        _ => None,
    }
}

fn direction_field(row: &Content, name: &str) -> (r: Option<PreferenceDirection>)
    ensures
        r == direction_at(row.deep_view(), name@),
{
    match find_value(row, name) {
        Some(FieldValue::Text(t)) => {
            let r = PreferenceDirection::from_name(t.as_str());
            proof {
                if let Some(d) = r {
                    lemma_direction_named(d);
                }
            }
            r
        },
        _ => None,
    }
}

/// What a row has under a name, where it is the name of a status.
pub open spec fn status_at(row: RowView, name: Seq<char>) -> Option<TaskStatus> {
    match value_of(row, name) {
        Some(ValueView::Text(t)) if exists|s: TaskStatus| t == #[trigger] s.name() => Some(
            status_named(t),
        ),
        _ => None,
    }
}

fn status_field(row: &Content, name: &str) -> (r: Option<TaskStatus>)
    ensures
        r == status_at(row.deep_view(), name@),
{
    match find_value(row, name) {
        Some(FieldValue::Text(t)) => {
            let r = TaskStatus::from_name(t.as_str());
            proof {
                if let Some(s) = r {
                    lemma_status_named(s);
                }
            }
            r
        },
        _ => None,
    }
}

// --- Episode rows -----------------------------------------------------------

/// The columns of an episode.
pub open spec fn episode_columns_spec() -> Seq<ColumnView> {
    seq![
        column("id"@, ColumnKind::Record, false),
        column("agent_id"@, ColumnKind::Text, true),
        column("org_id"@, ColumnKind::Text, false),
        column("user_id"@, ColumnKind::Text, false),
        column("content"@, ColumnKind::Text, true),
        column("content_type"@, ColumnKind::Text, true),
        column("embedding"@, ColumnKind::Reals, false),
        column("importance"@, ColumnKind::Real, true),
        column("entities"@, ColumnKind::Records, false),
        column("valid_time_start"@, ColumnKind::Time, true),
        column("valid_time_end"@, ColumnKind::Time, false),
        column("transaction_time"@, ColumnKind::Time, false),
        column("consolidated"@, ColumnKind::Bool, true),
        column("consolidated_at"@, ColumnKind::Time, false),
        column("summary"@, ColumnKind::Text, false),
        column("source_tier"@, ColumnKind::Tier, true),
        column("metadata"@, ColumnKind::Json, true),
    ]
}

/// The columns of an episode.
pub fn episode_columns() -> (r: Vec<Column>)
    ensures
        r.deep_view() == episode_columns_spec(),
{
    let r = vec![
        Column { name: "id", kind: ColumnKind::Record, required: false },
        Column { name: "agent_id", kind: ColumnKind::Text, required: true },
        Column { name: "org_id", kind: ColumnKind::Text, required: false },
        Column { name: "user_id", kind: ColumnKind::Text, required: false },
        Column { name: "content", kind: ColumnKind::Text, required: true },
        Column { name: "content_type", kind: ColumnKind::Text, required: true },
        Column { name: "embedding", kind: ColumnKind::Reals, required: false },
        Column { name: "importance", kind: ColumnKind::Real, required: true },
        Column { name: "entities", kind: ColumnKind::Records, required: false },
        Column { name: "valid_time_start", kind: ColumnKind::Time, required: true },
        Column { name: "valid_time_end", kind: ColumnKind::Time, required: false },
        Column { name: "transaction_time", kind: ColumnKind::Time, required: false },
        Column { name: "consolidated", kind: ColumnKind::Bool, required: true },
        Column { name: "consolidated_at", kind: ColumnKind::Time, required: false },
        Column { name: "summary", kind: ColumnKind::Text, required: false },
        Column { name: "source_tier", kind: ColumnKind::Tier, required: true },
        Column { name: "metadata", kind: ColumnKind::Json, required: true },
    ];
    assert(r.deep_view() =~= episode_columns_spec());
    r
}

/// The episode of a row, or what is wrong with the row.
pub open spec fn episode_of_row(row: RowView) -> Result<EpisodeView, ErrorView> {
    match first_misfit(row, episode_columns_spec()) {
        Some(name) => Err(ErrorView::Surreal(misfit_text(name))),
        None => Ok(
            EpisodeView {
                id: record_at(row, "id"@),
                agent_id: text_at(row, "agent_id"@)->0,
                org_id: text_at(row, "org_id"@),
                user_id: text_at(row, "user_id"@),
                content: text_at(row, "content"@)->0,
                content_type: text_at(row, "content_type"@)->0,
                embedding: reals_at(row, "embedding"@),
                importance: real_at(row, "importance"@)->0,
                entities: records_at(row, "entities"@),
                valid_time_start: time_at(row, "valid_time_start"@)->0,
                valid_time_end: time_at(row, "valid_time_end"@),
                transaction_time: time_at(row, "transaction_time"@),
                consolidated: bool_at(row, "consolidated"@)->0,
                consolidated_at: time_at(row, "consolidated_at"@),
                summary: text_at(row, "summary"@),
                source_tier: tier_at(row, "source_tier"@)->0,
                metadata: json_at(row, "metadata"@)->0,
            },
        ),
    }
}

/// The episode of a row, or what is wrong with the row.
pub fn episode_from_row(row: &Content) -> (r: Result<Episode, Error>)
    ensures
        episode_of_row(row.deep_view()) == (match r {
            Ok(x) => Ok(x.deep_view()),
            Err(e) => Err(e.deep_view()),
        }),
{
    if let Some(name) = find_misfit(row, &episode_columns()) {
        return Err(Error::Surreal(misfit_message(name)));
    }
    proof {
        let cols = episode_columns_spec();
        lemma_all_fit(row.deep_view(), cols);
        assert(column_fits(row.deep_view(), cols[1]));
        assert(column_fits(row.deep_view(), cols[4]));
        assert(column_fits(row.deep_view(), cols[5]));
        assert(column_fits(row.deep_view(), cols[7]));
        assert(column_fits(row.deep_view(), cols[9]));
        assert(column_fits(row.deep_view(), cols[12]));
        assert(column_fits(row.deep_view(), cols[15]));
        assert(column_fits(row.deep_view(), cols[16]));
    }
    Ok(
        Episode {
            id: record_field(row, "id"),
            agent_id: text_field(row, "agent_id").unwrap(),
            org_id: text_field(row, "org_id"),
            user_id: text_field(row, "user_id"),
            content: text_field(row, "content").unwrap(),
            content_type: text_field(row, "content_type").unwrap(),
            embedding: reals_field(row, "embedding"),
            importance: real_field(row, "importance").unwrap(),
            entities: records_field(row, "entities"),
            valid_time_start: time_field(row, "valid_time_start").unwrap(),
            valid_time_end: time_field(row, "valid_time_end"),
            transaction_time: time_field(row, "transaction_time"),
            consolidated: bool_field(row, "consolidated").unwrap(),
            consolidated_at: time_field(row, "consolidated_at"),
            summary: text_field(row, "summary"),
            source_tier: tier_field(row, "source_tier").unwrap(),
            metadata: json_field(row, "metadata").unwrap(),
        },
    )
}

// --- Entity rows ------------------------------------------------------------

/// The columns of an entity.
pub open spec fn entity_columns_spec() -> Seq<ColumnView> {
    seq![
        column("id"@, ColumnKind::Record, false),
        column("agent_id"@, ColumnKind::Text, true),
        column("org_id"@, ColumnKind::Text, false),
        column("canonical_name"@, ColumnKind::Text, true),
        column("aliases"@, ColumnKind::Texts, true),
        column("entity_type"@, ColumnKind::Text, true),
        column("attributes"@, ColumnKind::Json, true),
        column("embedding"@, ColumnKind::Reals, false),
        column("confidence"@, ColumnKind::Real, true),
        column("confidence_tier"@, ColumnKind::Tier, true),
        column("anchor_record"@, ColumnKind::Record, false),
        column("created_at"@, ColumnKind::Time, false),
        column("last_updated"@, ColumnKind::Time, false),
        column("disambiguation_log"@, ColumnKind::Jsons, false),
    ]
}

/// The columns of an entity.
pub fn entity_columns() -> (r: Vec<Column>)
    ensures
        r.deep_view() == entity_columns_spec(),
{
    let r = vec![
        Column { name: "id", kind: ColumnKind::Record, required: false },
        Column { name: "agent_id", kind: ColumnKind::Text, required: true },
        Column { name: "org_id", kind: ColumnKind::Text, required: false },
        Column { name: "canonical_name", kind: ColumnKind::Text, required: true },
        Column { name: "aliases", kind: ColumnKind::Texts, required: true },
        Column { name: "entity_type", kind: ColumnKind::Text, required: true },
        Column { name: "attributes", kind: ColumnKind::Json, required: true },
        Column { name: "embedding", kind: ColumnKind::Reals, required: false },
        Column { name: "confidence", kind: ColumnKind::Real, required: true },
        Column { name: "confidence_tier", kind: ColumnKind::Tier, required: true },
        Column { name: "anchor_record", kind: ColumnKind::Record, required: false },
        Column { name: "created_at", kind: ColumnKind::Time, required: false },
        Column { name: "last_updated", kind: ColumnKind::Time, required: false },
        Column { name: "disambiguation_log", kind: ColumnKind::Jsons, required: false },
    ];
    assert(r.deep_view() =~= entity_columns_spec());
    r
}

/// The entity of a row, or what is wrong with the row.
pub open spec fn entity_of_row(row: RowView) -> Result<EntityView, ErrorView> {
    match first_misfit(row, entity_columns_spec()) {
        Some(name) => Err(ErrorView::Surreal(misfit_text(name))),
        None => Ok(
            EntityView {
                id: record_at(row, "id"@),
                agent_id: text_at(row, "agent_id"@)->0,
                org_id: text_at(row, "org_id"@),
                canonical_name: text_at(row, "canonical_name"@)->0,
                aliases: texts_at(row, "aliases"@)->0,
                entity_type: text_at(row, "entity_type"@)->0,
                attributes: json_at(row, "attributes"@)->0,
                embedding: reals_at(row, "embedding"@),
                confidence: real_at(row, "confidence"@)->0,
                confidence_tier: tier_at(row, "confidence_tier"@)->0,
                anchor_record: record_at(row, "anchor_record"@),
                created_at: time_at(row, "created_at"@),
                last_updated: time_at(row, "last_updated"@),
                disambiguation_log: jsons_at(row, "disambiguation_log"@),
            },
        ),
    }
}

/// The entity of a row, or what is wrong with the row.
pub fn entity_from_row(row: &Content) -> (r: Result<Entity, Error>)
    ensures
        entity_of_row(row.deep_view()) == (match r {
            Ok(x) => Ok(x.deep_view()),
            Err(e) => Err(e.deep_view()),
        }),
{
    if let Some(name) = find_misfit(row, &entity_columns()) {
        return Err(Error::Surreal(misfit_message(name)));
    }
    proof {
        let cols = entity_columns_spec();
        lemma_all_fit(row.deep_view(), cols);
        assert(column_fits(row.deep_view(), cols[1]));
        assert(column_fits(row.deep_view(), cols[3]));
        assert(column_fits(row.deep_view(), cols[4]));
        assert(column_fits(row.deep_view(), cols[5]));
        assert(column_fits(row.deep_view(), cols[6]));
        assert(column_fits(row.deep_view(), cols[8]));
        assert(column_fits(row.deep_view(), cols[9]));
    }
    Ok(
        Entity {
            id: record_field(row, "id"),
            agent_id: text_field(row, "agent_id").unwrap(),
            org_id: text_field(row, "org_id"),
            canonical_name: text_field(row, "canonical_name").unwrap(),
            aliases: texts_field(row, "aliases").unwrap(),
            entity_type: text_field(row, "entity_type").unwrap(),
            attributes: json_field(row, "attributes").unwrap(),
            embedding: reals_field(row, "embedding"),
            confidence: real_field(row, "confidence").unwrap(),
            confidence_tier: tier_field(row, "confidence_tier").unwrap(),
            anchor_record: record_field(row, "anchor_record"),
            created_at: time_field(row, "created_at"),
            last_updated: time_field(row, "last_updated"),
            disambiguation_log: jsons_field(row, "disambiguation_log"),
        },
    )
}

// --- Concept rows -----------------------------------------------------------

/// The columns of a concept.
pub open spec fn concept_columns_spec() -> Seq<ColumnView> {
    seq![
        column("id"@, ColumnKind::Record, false),
        column("agent_id"@, ColumnKind::Text, true),
        column("org_id"@, ColumnKind::Text, false),
        column("content"@, ColumnKind::Text, true),
        column("embedding"@, ColumnKind::Reals, false),
        column("confidence"@, ColumnKind::Real, true),
        column("source_tier"@, ColumnKind::Tier, true),
        column("reinforcement_count"@, ColumnKind::Count, true),
        column("last_reinforced"@, ColumnKind::Time, false),
        column("decay_rate"@, ColumnKind::Real, true),
        column("inferred"@, ColumnKind::Bool, true),
        column("inference_chain"@, ColumnKind::Texts, false),
        column("valid_time_start"@, ColumnKind::Time, true),
        column("valid_time_end"@, ColumnKind::Time, false),
        column("transaction_time"@, ColumnKind::Time, false),
    ]
}

/// The columns of a concept.
pub fn concept_columns() -> (r: Vec<Column>)
    ensures
        r.deep_view() == concept_columns_spec(),
{
    let r = vec![
        Column { name: "id", kind: ColumnKind::Record, required: false },
        Column { name: "agent_id", kind: ColumnKind::Text, required: true },
        Column { name: "org_id", kind: ColumnKind::Text, required: false },
        Column { name: "content", kind: ColumnKind::Text, required: true },
        Column { name: "embedding", kind: ColumnKind::Reals, required: false },
        Column { name: "confidence", kind: ColumnKind::Real, required: true },
        Column { name: "source_tier", kind: ColumnKind::Tier, required: true },
        Column { name: "reinforcement_count", kind: ColumnKind::Count, required: true },
        Column { name: "last_reinforced", kind: ColumnKind::Time, required: false },
        Column { name: "decay_rate", kind: ColumnKind::Real, required: true },
        Column { name: "inferred", kind: ColumnKind::Bool, required: true },
        Column { name: "inference_chain", kind: ColumnKind::Texts, required: false },
        Column { name: "valid_time_start", kind: ColumnKind::Time, required: true },
        Column { name: "valid_time_end", kind: ColumnKind::Time, required: false },
        Column { name: "transaction_time", kind: ColumnKind::Time, required: false },
    ];
    assert(r.deep_view() =~= concept_columns_spec());
    r
}

/// The concept of a row, or what is wrong with the row.
pub open spec fn concept_of_row(row: RowView) -> Result<ConceptView, ErrorView> {
    match first_misfit(row, concept_columns_spec()) {
        Some(name) => Err(ErrorView::Surreal(misfit_text(name))),
        None => Ok(
            ConceptView {
                id: record_at(row, "id"@),
                agent_id: text_at(row, "agent_id"@)->0,
                org_id: text_at(row, "org_id"@),
                content: text_at(row, "content"@)->0,
                embedding: reals_at(row, "embedding"@),
                confidence: real_at(row, "confidence"@)->0,
                source_tier: tier_at(row, "source_tier"@)->0,
                reinforcement_count: count_at(row, "reinforcement_count"@)->0,
                last_reinforced: time_at(row, "last_reinforced"@),
                decay_rate: real_at(row, "decay_rate"@)->0,
                inferred: bool_at(row, "inferred"@)->0,
                inference_chain: texts_at(row, "inference_chain"@),
                valid_time_start: time_at(row, "valid_time_start"@)->0,
                valid_time_end: time_at(row, "valid_time_end"@),
                transaction_time: time_at(row, "transaction_time"@),
            },
        ),
    }
}

/// The concept of a row, or what is wrong with the row.
pub fn concept_from_row(row: &Content) -> (r: Result<Concept, Error>)
    ensures
        concept_of_row(row.deep_view()) == (match r {
            Ok(x) => Ok(x.deep_view()),
            Err(e) => Err(e.deep_view()),
        }),
{
    if let Some(name) = find_misfit(row, &concept_columns()) {
        return Err(Error::Surreal(misfit_message(name)));
    }
    proof {
        let cols = concept_columns_spec();
        lemma_all_fit(row.deep_view(), cols);
        assert(column_fits(row.deep_view(), cols[1]));
        assert(column_fits(row.deep_view(), cols[3]));
        assert(column_fits(row.deep_view(), cols[5]));
        assert(column_fits(row.deep_view(), cols[6]));
        assert(column_fits(row.deep_view(), cols[7]));
        assert(column_fits(row.deep_view(), cols[9]));
        assert(column_fits(row.deep_view(), cols[10]));
        assert(column_fits(row.deep_view(), cols[12]));
    }
    Ok(
        Concept {
            id: record_field(row, "id"),
            agent_id: text_field(row, "agent_id").unwrap(),
            org_id: text_field(row, "org_id"),
            content: text_field(row, "content").unwrap(),
            embedding: reals_field(row, "embedding"),
            confidence: real_field(row, "confidence").unwrap(),
            source_tier: tier_field(row, "source_tier").unwrap(),
            reinforcement_count: count_field(row, "reinforcement_count").unwrap(),
            last_reinforced: time_field(row, "last_reinforced"),
            decay_rate: real_field(row, "decay_rate").unwrap(),
            inferred: bool_field(row, "inferred").unwrap(),
            inference_chain: texts_field(row, "inference_chain"),
            valid_time_start: time_field(row, "valid_time_start").unwrap(),
            valid_time_end: time_field(row, "valid_time_end"),
            transaction_time: time_field(row, "transaction_time"),
        },
    )
}

// --- Preference rows --------------------------------------------------------

/// The columns of a preference.
pub open spec fn preference_columns_spec() -> Seq<ColumnView> {
    seq![
        column("id"@, ColumnKind::Record, false),
        column("agent_id"@, ColumnKind::Text, true),
        column("org_id"@, ColumnKind::Text, false),
        column("user_id"@, ColumnKind::Text, false),
        column("category"@, ColumnKind::Text, true),
        column("content"@, ColumnKind::Text, true),
        column("direction"@, ColumnKind::Direction, true),
        column("strength"@, ColumnKind::Real, true),
        column("source_tier"@, ColumnKind::Tier, true),
        column("evidence_count"@, ColumnKind::Count, true),
        column("last_reinforced"@, ColumnKind::Time, false),
        column("created_at"@, ColumnKind::Time, false),
        column("valid_time_start"@, ColumnKind::Time, true),
        column("valid_time_end"@, ColumnKind::Time, false),
        column("transaction_time"@, ColumnKind::Time, false),
    ]
}

/// The columns of a preference.
pub fn preference_columns() -> (r: Vec<Column>)
    ensures
        r.deep_view() == preference_columns_spec(),
{
    let r = vec![
        Column { name: "id", kind: ColumnKind::Record, required: false },
        Column { name: "agent_id", kind: ColumnKind::Text, required: true },
        Column { name: "org_id", kind: ColumnKind::Text, required: false },
        Column { name: "user_id", kind: ColumnKind::Text, required: false },
        Column { name: "category", kind: ColumnKind::Text, required: true },
        Column { name: "content", kind: ColumnKind::Text, required: true },
        Column { name: "direction", kind: ColumnKind::Direction, required: true },
        Column { name: "strength", kind: ColumnKind::Real, required: true },
        Column { name: "source_tier", kind: ColumnKind::Tier, required: true },
        Column { name: "evidence_count", kind: ColumnKind::Count, required: true },
        Column { name: "last_reinforced", kind: ColumnKind::Time, required: false },
        Column { name: "created_at", kind: ColumnKind::Time, required: false },
        Column { name: "valid_time_start", kind: ColumnKind::Time, required: true },
        Column { name: "valid_time_end", kind: ColumnKind::Time, required: false },
        Column { name: "transaction_time", kind: ColumnKind::Time, required: false },
    ];
    assert(r.deep_view() =~= preference_columns_spec());
    r
}

/// The preference of a row, or what is wrong with the row.
pub open spec fn preference_of_row(row: RowView) -> Result<PreferenceView, ErrorView> {
    match first_misfit(row, preference_columns_spec()) {
        Some(name) => Err(ErrorView::Surreal(misfit_text(name))),
        None => Ok(
            PreferenceView {
                id: record_at(row, "id"@),
                agent_id: text_at(row, "agent_id"@)->0,
                org_id: text_at(row, "org_id"@),
                user_id: text_at(row, "user_id"@),
                category: text_at(row, "category"@)->0,
                content: text_at(row, "content"@)->0,
                direction: direction_at(row, "direction"@)->0,
                strength: real_at(row, "strength"@)->0,
                source_tier: tier_at(row, "source_tier"@)->0,
                evidence_count: count_at(row, "evidence_count"@)->0,
                last_reinforced: time_at(row, "last_reinforced"@),
                created_at: time_at(row, "created_at"@),
                valid_time_start: time_at(row, "valid_time_start"@)->0,
                valid_time_end: time_at(row, "valid_time_end"@),
                transaction_time: time_at(row, "transaction_time"@),
            },
        ),
    }
}

/// The preference of a row, or what is wrong with the row.
pub fn preference_from_row(row: &Content) -> (r: Result<Preference, Error>)
    ensures
        preference_of_row(row.deep_view()) == (match r {
            Ok(x) => Ok(x.deep_view()),
            Err(e) => Err(e.deep_view()),
        }),
{
    if let Some(name) = find_misfit(row, &preference_columns()) {
        return Err(Error::Surreal(misfit_message(name)));
    }
    proof {
        let cols = preference_columns_spec();
        lemma_all_fit(row.deep_view(), cols);
        assert(column_fits(row.deep_view(), cols[1]));
        assert(column_fits(row.deep_view(), cols[4]));
        assert(column_fits(row.deep_view(), cols[5]));
        assert(column_fits(row.deep_view(), cols[6]));
        assert(column_fits(row.deep_view(), cols[7]));
        assert(column_fits(row.deep_view(), cols[8]));
        assert(column_fits(row.deep_view(), cols[9]));
        assert(column_fits(row.deep_view(), cols[12]));
    }
    Ok(
        Preference {
            id: record_field(row, "id"),
            agent_id: text_field(row, "agent_id").unwrap(),
            org_id: text_field(row, "org_id"),
            user_id: text_field(row, "user_id"),
            category: text_field(row, "category").unwrap(),
            content: text_field(row, "content").unwrap(),
            direction: direction_field(row, "direction").unwrap(),
            strength: real_field(row, "strength").unwrap(),
            source_tier: tier_field(row, "source_tier").unwrap(),
            evidence_count: count_field(row, "evidence_count").unwrap(),
            last_reinforced: time_field(row, "last_reinforced"),
            created_at: time_field(row, "created_at"),
            valid_time_start: time_field(row, "valid_time_start").unwrap(),
            valid_time_end: time_field(row, "valid_time_end"),
            transaction_time: time_field(row, "transaction_time"),
        },
    )
}

// --- Procedure rows ---------------------------------------------------------

/// The columns of a procedure.
pub open spec fn procedure_columns_spec() -> Seq<ColumnView> {
    seq![
        column("id"@, ColumnKind::Record, false),
        column("agent_id"@, ColumnKind::Text, true),
        column("org_id"@, ColumnKind::Text, false),
        column("name"@, ColumnKind::Text, true),
        column("procedure_type"@, ColumnKind::Text, true),
        column("content"@, ColumnKind::Text, true),
        column("embedding"@, ColumnKind::Reals, false),
        column("trigger_patterns"@, ColumnKind::Texts, true),
        column("usage_count"@, ColumnKind::Count, true),
        column("last_used"@, ColumnKind::Time, false),
        column("created_at"@, ColumnKind::Time, false),
    ]
}

/// The columns of a procedure.
pub fn procedure_columns() -> (r: Vec<Column>)
    ensures
        r.deep_view() == procedure_columns_spec(),
{
    let r = vec![
        Column { name: "id", kind: ColumnKind::Record, required: false },
        Column { name: "agent_id", kind: ColumnKind::Text, required: true },
        Column { name: "org_id", kind: ColumnKind::Text, required: false },
        Column { name: "name", kind: ColumnKind::Text, required: true },
        Column { name: "procedure_type", kind: ColumnKind::Text, required: true },
        Column { name: "content", kind: ColumnKind::Text, required: true },
        Column { name: "embedding", kind: ColumnKind::Reals, required: false },
        Column { name: "trigger_patterns", kind: ColumnKind::Texts, required: true },
        Column { name: "usage_count", kind: ColumnKind::Count, required: true },
        Column { name: "last_used", kind: ColumnKind::Time, required: false },
        Column { name: "created_at", kind: ColumnKind::Time, required: false },
    ];
    assert(r.deep_view() =~= procedure_columns_spec());
    r
}

/// The procedure of a row, or what is wrong with the row.
pub open spec fn procedure_of_row(row: RowView) -> Result<ProcedureView, ErrorView> {
    match first_misfit(row, procedure_columns_spec()) {
        Some(name) => Err(ErrorView::Surreal(misfit_text(name))),
        None => Ok(
            ProcedureView {
                id: record_at(row, "id"@),
                agent_id: text_at(row, "agent_id"@)->0,
                org_id: text_at(row, "org_id"@),
                name: text_at(row, "name"@)->0,
                procedure_type: text_at(row, "procedure_type"@)->0,
                content: text_at(row, "content"@)->0,
                embedding: reals_at(row, "embedding"@),
                trigger_patterns: texts_at(row, "trigger_patterns"@)->0,
                usage_count: count_at(row, "usage_count"@)->0,
                last_used: time_at(row, "last_used"@),
                created_at: time_at(row, "created_at"@),
            },
        ),
    }
}

/// The procedure of a row, or what is wrong with the row.
pub fn procedure_from_row(row: &Content) -> (r: Result<Procedure, Error>)
    ensures
        procedure_of_row(row.deep_view()) == (match r {
            Ok(x) => Ok(x.deep_view()),
            Err(e) => Err(e.deep_view()),
        }),
{
    if let Some(name) = find_misfit(row, &procedure_columns()) {
        return Err(Error::Surreal(misfit_message(name)));
    }
    proof {
        let cols = procedure_columns_spec();
        lemma_all_fit(row.deep_view(), cols);
        assert(column_fits(row.deep_view(), cols[1]));
        assert(column_fits(row.deep_view(), cols[3]));
        assert(column_fits(row.deep_view(), cols[4]));
        assert(column_fits(row.deep_view(), cols[5]));
        assert(column_fits(row.deep_view(), cols[7]));
        assert(column_fits(row.deep_view(), cols[8]));
    }
    Ok(
        Procedure {
            id: record_field(row, "id"),
            agent_id: text_field(row, "agent_id").unwrap(),
            org_id: text_field(row, "org_id"),
            name: text_field(row, "name").unwrap(),
            procedure_type: text_field(row, "procedure_type").unwrap(),
            content: text_field(row, "content").unwrap(),
            embedding: reals_field(row, "embedding"),
            trigger_patterns: texts_field(row, "trigger_patterns").unwrap(),
            usage_count: count_field(row, "usage_count").unwrap(),
            last_used: time_field(row, "last_used"),
            created_at: time_field(row, "created_at"),
        },
    )
}

// --- Task rows --------------------------------------------------------------

/// The columns of a task.
pub open spec fn task_columns_spec() -> Seq<ColumnView> {
    seq![
        column("id"@, ColumnKind::Record, false),
        column("agent_id"@, ColumnKind::Text, true),
        column("org_id"@, ColumnKind::Text, false),
        column("user_id"@, ColumnKind::Text, false),
        column("content"@, ColumnKind::Text, true),
        column("trigger_type"@, ColumnKind::Text, true),
        column("trigger_value"@, ColumnKind::Text, true),
        column("status"@, ColumnKind::Status, true),
        column("created_at"@, ColumnKind::Time, false),
        column("triggered_at"@, ColumnKind::Time, false),
    ]
}

/// The columns of a task.
pub fn task_columns() -> (r: Vec<Column>)
    ensures
        r.deep_view() == task_columns_spec(),
{
    let r = vec![
        Column { name: "id", kind: ColumnKind::Record, required: false },
        Column { name: "agent_id", kind: ColumnKind::Text, required: true },
        Column { name: "org_id", kind: ColumnKind::Text, required: false },
        Column { name: "user_id", kind: ColumnKind::Text, required: false },
        Column { name: "content", kind: ColumnKind::Text, required: true },
        Column { name: "trigger_type", kind: ColumnKind::Text, required: true },
        Column { name: "trigger_value", kind: ColumnKind::Text, required: true },
        Column { name: "status", kind: ColumnKind::Status, required: true },
        Column { name: "created_at", kind: ColumnKind::Time, required: false },
        Column { name: "triggered_at", kind: ColumnKind::Time, required: false },
    ];
    assert(r.deep_view() =~= task_columns_spec());
    r
}

/// The task of a row, or what is wrong with the row.
pub open spec fn task_of_row(row: RowView) -> Result<TaskView, ErrorView> {
    match first_misfit(row, task_columns_spec()) {
        Some(name) => Err(ErrorView::Surreal(misfit_text(name))),
        None => Ok(
            TaskView {
                id: record_at(row, "id"@),
                agent_id: text_at(row, "agent_id"@)->0,
                org_id: text_at(row, "org_id"@),
                user_id: text_at(row, "user_id"@),
                content: text_at(row, "content"@)->0,
                trigger_type: text_at(row, "trigger_type"@)->0,
                trigger_value: text_at(row, "trigger_value"@)->0,
                status: status_at(row, "status"@)->0,
                created_at: time_at(row, "created_at"@),
                triggered_at: time_at(row, "triggered_at"@),
            },
        ),
    }
}

/// The task of a row, or what is wrong with the row.
pub fn task_from_row(row: &Content) -> (r: Result<Task, Error>)
    ensures
        task_of_row(row.deep_view()) == (match r {
            Ok(x) => Ok(x.deep_view()),
            Err(e) => Err(e.deep_view()),
        }),
{
    if let Some(name) = find_misfit(row, &task_columns()) {
        return Err(Error::Surreal(misfit_message(name)));
    }
    proof {
        let cols = task_columns_spec();
        lemma_all_fit(row.deep_view(), cols);
        assert(column_fits(row.deep_view(), cols[1]));
        assert(column_fits(row.deep_view(), cols[4]));
        assert(column_fits(row.deep_view(), cols[5]));
        assert(column_fits(row.deep_view(), cols[6]));
        assert(column_fits(row.deep_view(), cols[7]));
    }
    Ok(
        Task {
            id: record_field(row, "id"),
            agent_id: text_field(row, "agent_id").unwrap(),
            org_id: text_field(row, "org_id"),
            user_id: text_field(row, "user_id"),
            content: text_field(row, "content").unwrap(),
            trigger_type: text_field(row, "trigger_type").unwrap(),
            trigger_value: text_field(row, "trigger_value").unwrap(),
            status: status_field(row, "status").unwrap(),
            created_at: time_field(row, "created_at"),
            triggered_at: time_field(row, "triggered_at"),
        },
    )
}

// --- Ledger rows --------------------------------------------------------------

/// The columns of the schema ledger.
pub open spec fn ledger_columns_spec() -> Seq<ColumnView> {
    seq![
        column("version"@, ColumnKind::Count, true),
        column("applied_at"@, ColumnKind::Time, true),
        column("engram_ver"@, ColumnKind::Text, true),
        column("migration"@, ColumnKind::Text, true),
        column("checksum"@, ColumnKind::Text, true),
        column("direction"@, ColumnKind::Text, true),
    ]
}

/// The columns of the schema ledger.
pub fn ledger_columns() -> (r: Vec<Column>)
    ensures
        r.deep_view() == ledger_columns_spec(),
{
    let r = vec![
        Column { name: "version", kind: ColumnKind::Count, required: true },
        Column { name: "applied_at", kind: ColumnKind::Time, required: true },
        Column { name: "engram_ver", kind: ColumnKind::Text, required: true },
        Column { name: "migration", kind: ColumnKind::Text, required: true },
        Column { name: "checksum", kind: ColumnKind::Text, required: true },
        Column { name: "direction", kind: ColumnKind::Text, required: true },
    ];
    assert(r.deep_view() =~= ledger_columns_spec());
    r
}

/// The ledger row of a row. One that lacks a field, or has a field of another
/// type, is malformed.
pub fn ledger_from_row(row: &Content) -> (r: Result<LedgerRow, Error>)
    ensures
        match (r, first_misfit(row.deep_view(), ledger_columns_spec())) {
            (Ok(x), None) => {
                &&& Some(x.version) == count_at(row.deep_view(), "version"@)
                &&& Some(x.applied_at) == time_at(row.deep_view(), "applied_at"@)
                &&& Some(x.engram_ver@) == text_at(row.deep_view(), "engram_ver"@)
                &&& Some(x.migration@) == text_at(row.deep_view(), "migration"@)
                &&& Some(x.checksum@) == text_at(row.deep_view(), "checksum"@)
                &&& Some(x.direction@) == text_at(row.deep_view(), "direction"@)
            },
            (Err(e), Some(name)) => e.deep_view() == ErrorView::LedgerMalformed(
                misfit_text(name),
            ),
            _ => false,
        },
{
    if let Some(name) = find_misfit(row, &ledger_columns()) {
        return Err(Error::LedgerMalformed(misfit_message(name)));
    }
    proof {
        let cols = ledger_columns_spec();
        lemma_all_fit(row.deep_view(), cols);
        assert(column_fits(row.deep_view(), cols[0]));
        assert(column_fits(row.deep_view(), cols[1]));
        assert(column_fits(row.deep_view(), cols[2]));
        assert(column_fits(row.deep_view(), cols[3]));
        assert(column_fits(row.deep_view(), cols[4]));
        assert(column_fits(row.deep_view(), cols[5]));
    }
    Ok(
        LedgerRow {
            version: count_field(row, "version").unwrap(),
            applied_at: time_field(row, "applied_at").unwrap(),
            engram_ver: text_field(row, "engram_ver").unwrap(),
            migration: text_field(row, "migration").unwrap(),
            checksum: text_field(row, "checksum").unwrap(),
            direction: text_field(row, "direction").unwrap(),
        },
    )
}

// --- Laws --------------------------------------------------------------------

/// A row has under a name what was set last under that name, and nothing where
/// nothing was.
pub proof fn the_last_value_counts(row: RowView, name: Seq<char>, other: Seq<char>, v: ValueView)
    ensures
        value_of(Seq::empty(), name) is None,
        value_of(row.push((name, v)), name) == Some(v),
        other != name ==> value_of(row.push((other, v)), name) == value_of(row, name),
{
    reveal(value_of);
    assert(row.push((other, v)).drop_last() =~= row);
}

/// A row is refused for the first of its columns that is missing where it must be
/// there, or that holds a value of another kind; a row without such a column is
/// not refused.
pub proof fn a_row_is_refused_for_its_first_misfit(row: RowView, columns: Seq<ColumnView>)
    ensures
        first_misfit(row, columns) is None <==> forall|i: int|
            0 <= i < columns.len() ==> column_fits(row, #[trigger] columns[i]),
        first_misfit(row, columns) matches Some(name) ==> exists|i: int|
            0 <= i < columns.len() && (#[trigger] columns[i]).name == name && !column_fits(
                row,
                columns[i],
            ) && forall|j: int| 0 <= j < i ==> column_fits(row, #[trigger] columns[j]),
    decreases columns.len(),
{
    if columns.len() > 0 {
        let rest = columns.drop_first();
        a_row_is_refused_for_its_first_misfit(row, rest);
        if !column_fits(row, columns[0]) {
            assert(columns[0].name == first_misfit(row, columns)->0);
        } else {
            assert forall|i: int| 0 < i < columns.len() implies #[trigger] columns[i] == rest[i
                - 1] by {}
            if first_misfit(row, rest) is None {
                assert forall|i: int| 0 <= i < columns.len() implies column_fits(
                    row,
                    #[trigger] columns[i],
                ) by {
                    if i > 0 {
                        assert(columns[i] == rest[i - 1]);
                    }
                }
            } else {
                let i = choose|i: int|
                    0 <= i < rest.len() && (#[trigger] rest[i]).name == first_misfit(row, rest)->0
                        && !column_fits(row, rest[i]) && forall|j: int|
                        0 <= j < i ==> column_fits(row, #[trigger] rest[j]);
                assert(columns[i + 1] == rest[i]);
                assert forall|j: int| 0 <= j < i + 1 implies column_fits(
                    row,
                    #[trigger] columns[j],
                ) by {
                    if j > 0 {
                        assert(columns[j] == rest[j - 1]);
                    }
                }
            }
        }
    }
}

/// What fits a column: a value of its kind; nothing, where it may be missing.
/// Counts are those that fit their type, tiers go from one to five, directions
/// and states are given by name.
pub proof fn a_column_takes_its_kind(row: RowView, c: ColumnView)
    ensures
        value_of(row, c.name) is None ==> (column_fits(row, c) <==> !c.required),
        value_of(row, c.name) matches Some(v) ==> (column_fits(row, c) <==> match (c.kind, v) {
            (ColumnKind::Text, ValueView::Text(_)) => true,
            (ColumnKind::Bool, ValueView::Bool(_)) => true,
            (ColumnKind::Count, ValueView::Int(n)) => 0 <= n <= 0xffff_ffff,
            (ColumnKind::Tier, ValueView::Int(n)) => 1 <= n <= 5,
            (ColumnKind::Direction, ValueView::Text(t)) => t == "positive"@ || t == "negative"@,
            (ColumnKind::Status, ValueView::Text(t)) => t == "pending"@ || t == "triggered"@ || t
                == "completed"@ || t == "cancelled"@,
            (ColumnKind::Real, ValueView::Real(_)) => true,
            (ColumnKind::Time, ValueView::Time(_)) => true,
            (ColumnKind::Reals, ValueView::Reals(_)) => true,
            (ColumnKind::Record, ValueView::Record(_)) => true,
            (ColumnKind::Records, ValueView::Records(_)) => true,
            (ColumnKind::Texts, ValueView::Texts(_)) => true,
            (ColumnKind::Json, ValueView::Json(_)) => true,
            (ColumnKind::Jsons, ValueView::Jsons(_)) => true,
            _ => false,
        }),
{
    assert(PreferenceDirection::Positive.name() == "positive"@);
    assert(PreferenceDirection::Negative.name() == "negative"@);
    assert(TaskStatus::Pending.name() == "pending"@);
    assert(TaskStatus::Triggered.name() == "triggered"@);
    assert(TaskStatus::Completed.name() == "completed"@);
    assert(TaskStatus::Cancelled.name() == "cancelled"@);
}

/// What is said of a row that is refused.
pub proof fn a_misfit_is_named(name: Seq<char>)
    ensures
        misfit_text(name) == "field "@ + name + " is missing or of another type"@,
{
}

} // verus!

//! What is read back of what was written.
use vstd::prelude::*;
use crate::storage::content::{
    concept_fields, entity_fields, episode_fields, one, or_now, preference_fields,
    procedure_fields, task_fields, ValueView,
};
use crate::storage::error::ErrorView;
use crate::storage::record::{
    ConceptView, EntityView, EpisodeView, PreferenceView, ProcedureView, RecordIdView, TaskView,
};
use crate::storage::rows::{
    column, column_fits, concept_columns_spec, concept_of_row, entity_columns_spec, entity_of_row,
    episode_columns_spec, episode_of_row, first_misfit, lemma_direction_named, lemma_status_named,
    lemma_tier_numbered, preference_columns_spec, preference_of_row, procedure_columns_spec,
    procedure_of_row, task_columns_spec, task_of_row, time_at, value_of, ColumnKind, ColumnView,
    RowView,
};
use crate::time::Timestamp;

verus! {

proof fn lemma_no_misfit(row: RowView, columns: Seq<ColumnView>)
    requires
        forall|i: int| 0 <= i < columns.len() ==> column_fits(row, #[trigger] columns[i]),
    ensures
        first_misfit(row, columns) is None,
    decreases columns.len(),
{
    if columns.len() > 0 {
        let rest = columns.drop_first();
        assert forall|i: int| 0 <= i < rest.len() implies column_fits(
            row,
            #[trigger] rest[i],
        ) by {
            assert(rest[i] == columns[i + 1]);
        }
        assert(column_fits(row, columns[0]));
        lemma_no_misfit(row, rest);
    }
}

proof fn lemma_value_of_both(
    a: RowView,
    b: RowView,
    name: Seq<char>,
)
    ensures
        value_of(a + b, name) == (match value_of(b, name) {
            Some(v) => Some(v),
            None => value_of(a, name),
        }),
    decreases b.len(),
{
    reveal(value_of);
    if b.len() == 0 {
        assert(a + b =~= a);
    } else {
        assert((a + b).drop_last() =~= a + b.drop_last());
        assert((a + b).last() == b.last());
        lemma_value_of_both(a, b.drop_last(), name);
    }
}

/// The values of a row that is put together, by those of its parts.
proof fn lemma_values_of_parts()
    ensures
        forall|name: Seq<char>|
            #[trigger] value_of(RowView::empty(), name) is None,
        forall|a: RowView, b: RowView, name: Seq<char>|
            #[trigger] value_of(a + b, name) == (match value_of(b, name) {
                Some(v) => Some(v),
                None => value_of(a, name),
            }),
        forall|n: Seq<char>, v: ValueView, name: Seq<char>|
            #[trigger] value_of(one(n, v), name) == (if n == name {
                Some(v)
            } else {
                None
            }),
{
    reveal(value_of);
    assert forall|a: RowView, b: RowView, name: Seq<char>|
        #[trigger] value_of(a + b, name) == (match value_of(b, name) {
            Some(v) => Some(v),
            None => value_of(a, name),
        }) by {
        lemma_value_of_both(a, b, name);
    }
    assert forall|n: Seq<char>, v: ValueView, name: Seq<char>|
        #[trigger] value_of(one(n, v), name) == (if n == name {
            Some(v)
        } else {
            None
        }) by {
        let row = one(n, v);
        assert(row.drop_last() =~= RowView::empty());
        assert(row.last() == (n, v));
        assert(value_of(row.drop_last(), name) is None);
    }
}

/// The columns have different names.
proof fn lemma_names_differ()
    ensures
        "agent_id"@.len() == 8,
        "aliases"@.len() == 7,
        "anchor_record"@.len() == 13,
        "attributes"@.len() == 10,
        "canonical_name"@.len() == 14,
        "category"@.len() == 8,
        "confidence"@.len() == 10,
        "confidence_tier"@.len() == 15,
        "consolidated"@.len() == 12,
        "consolidated_at"@.len() == 15,
        "content"@.len() == 7,
        "content_type"@.len() == 12,
        "created_at"@.len() == 10,
        "decay_rate"@.len() == 10,
        "direction"@.len() == 9,
        "disambiguation_log"@.len() == 18,
        "embedding"@.len() == 9,
        "entities"@.len() == 8,
        "entity_type"@.len() == 11,
        "evidence_count"@.len() == 14,
        "id"@.len() == 2,
        "importance"@.len() == 10,
        "inference_chain"@.len() == 15,
        "inferred"@.len() == 8,
        "last_reinforced"@.len() == 15,
        "last_updated"@.len() == 12,
        "last_used"@.len() == 9,
        "metadata"@.len() == 8,
        "name"@.len() == 4,
        "org_id"@.len() == 6,
        "procedure_type"@.len() == 14,
        "reinforcement_count"@.len() == 19,
        "source_tier"@.len() == 11,
        "status"@.len() == 6,
        "strength"@.len() == 8,
        "summary"@.len() == 7,
        "transaction_time"@.len() == 16,
        "trigger_patterns"@.len() == 16,
        "trigger_type"@.len() == 12,
        "trigger_value"@.len() == 13,
        "triggered_at"@.len() == 12,
        "usage_count"@.len() == 11,
        "user_id"@.len() == 7,
        "valid_time_end"@.len() == 14,
        "valid_time_start"@.len() == 16,
        "org_id"@ != "status"@,
        "aliases"@ != "content"@,
        "aliases"@ != "summary"@,
        "aliases"@ != "user_id"@,
        "content"@ != "summary"@,
        "content"@ != "user_id"@,
        "summary"@ != "user_id"@,
        "agent_id"@ != "category"@,
        "agent_id"@ != "entities"@,
        "agent_id"@ != "inferred"@,
        "agent_id"@ != "metadata"@,
        "agent_id"@ != "strength"@,
        "category"@ != "entities"@,
        "category"@ != "inferred"@,
        "category"@ != "metadata"@,
        "category"@ != "strength"@,
        "entities"@ != "inferred"@,
        "entities"@ != "metadata"@,
        "entities"@ != "strength"@,
        "inferred"@ != "metadata"@,
        "inferred"@ != "strength"@,
        "metadata"@ != "strength"@,
        "direction"@ != "embedding"@,
        "direction"@ != "last_used"@,
        "embedding"@ != "last_used"@,
        "attributes"@ != "confidence"@,
        "attributes"@ != "created_at"@,
        "attributes"@ != "decay_rate"@,
        "attributes"@ != "importance"@,
        "confidence"@ != "created_at"@,
        "confidence"@ != "decay_rate"@,
        "confidence"@ != "importance"@,
        "created_at"@ != "decay_rate"@,
        "created_at"@ != "importance"@,
        "decay_rate"@ != "importance"@,
        "entity_type"@ != "source_tier"@,
        "entity_type"@ != "usage_count"@,
        "source_tier"@ != "usage_count"@,
        "consolidated"@ != "content_type"@,
        "consolidated"@ != "last_updated"@,
        "consolidated"@ != "trigger_type"@,
        "consolidated"@ != "triggered_at"@,
        "content_type"@ != "last_updated"@,
        "content_type"@ != "trigger_type"@,
        "content_type"@ != "triggered_at"@,
        "last_updated"@ != "trigger_type"@,
        "last_updated"@ != "triggered_at"@,
        "trigger_type"@ != "triggered_at"@,
        "anchor_record"@ != "trigger_value"@,
        "canonical_name"@ != "evidence_count"@,
        "canonical_name"@ != "procedure_type"@,
        "canonical_name"@ != "valid_time_end"@,
        "evidence_count"@ != "procedure_type"@,
        "evidence_count"@ != "valid_time_end"@,
        "procedure_type"@ != "valid_time_end"@,
        "confidence_tier"@ != "consolidated_at"@,
        "confidence_tier"@ != "inference_chain"@,
        "confidence_tier"@ != "last_reinforced"@,
        "consolidated_at"@ != "inference_chain"@,
        "consolidated_at"@ != "last_reinforced"@,
        "inference_chain"@ != "last_reinforced"@,
        "transaction_time"@ != "trigger_patterns"@,
        "transaction_time"@ != "valid_time_start"@,
        "trigger_patterns"@ != "valid_time_start"@,
{
    reveal_strlit("agent_id");
    reveal_strlit("aliases");
    reveal_strlit("anchor_record");
    reveal_strlit("attributes");
    reveal_strlit("canonical_name");
    reveal_strlit("category");
    reveal_strlit("confidence");
    reveal_strlit("confidence_tier");
    reveal_strlit("consolidated");
    reveal_strlit("consolidated_at");
    reveal_strlit("content");
    reveal_strlit("content_type");
    reveal_strlit("created_at");
    reveal_strlit("decay_rate");
    reveal_strlit("direction");
    reveal_strlit("disambiguation_log");
    reveal_strlit("embedding");
    reveal_strlit("entities");
    reveal_strlit("entity_type");
    reveal_strlit("evidence_count");
    reveal_strlit("id");
    reveal_strlit("importance");
    reveal_strlit("inference_chain");
    reveal_strlit("inferred");
    reveal_strlit("last_reinforced");
    reveal_strlit("last_updated");
    reveal_strlit("last_used");
    reveal_strlit("metadata");
    reveal_strlit("name");
    reveal_strlit("org_id");
    reveal_strlit("procedure_type");
    reveal_strlit("reinforcement_count");
    reveal_strlit("source_tier");
    reveal_strlit("status");
    reveal_strlit("strength");
    reveal_strlit("summary");
    reveal_strlit("transaction_time");
    reveal_strlit("trigger_patterns");
    reveal_strlit("trigger_type");
    reveal_strlit("trigger_value");
    reveal_strlit("triggered_at");
    reveal_strlit("usage_count");
    reveal_strlit("user_id");
    reveal_strlit("valid_time_end");
    reveal_strlit("valid_time_start");
    assert("org_id"@[0] != "status"@[0]);
    assert("aliases"@[0] != "content"@[0]);
    assert("aliases"@[0] != "summary"@[0]);
    assert("aliases"@[0] != "user_id"@[0]);
    assert("content"@[0] != "summary"@[0]);
    assert("content"@[0] != "user_id"@[0]);
    assert("summary"@[0] != "user_id"@[0]);
    assert("agent_id"@[0] != "category"@[0]);
    assert("agent_id"@[0] != "entities"@[0]);
    assert("agent_id"@[0] != "inferred"@[0]);
    assert("agent_id"@[0] != "metadata"@[0]);
    assert("agent_id"@[0] != "strength"@[0]);
    assert("category"@[0] != "entities"@[0]);
    assert("category"@[0] != "inferred"@[0]);
    assert("category"@[0] != "metadata"@[0]);
    assert("category"@[0] != "strength"@[0]);
    assert("entities"@[0] != "inferred"@[0]);
    assert("entities"@[0] != "metadata"@[0]);
    assert("entities"@[0] != "strength"@[0]);
    assert("inferred"@[0] != "metadata"@[0]);
    assert("inferred"@[0] != "strength"@[0]);
    assert("metadata"@[0] != "strength"@[0]);
    assert("direction"@[0] != "embedding"@[0]);
    assert("direction"@[0] != "last_used"@[0]);
    assert("embedding"@[0] != "last_used"@[0]);
    assert("attributes"@[0] != "confidence"@[0]);
    assert("attributes"@[0] != "created_at"@[0]);
    assert("attributes"@[0] != "decay_rate"@[0]);
    assert("attributes"@[0] != "importance"@[0]);
    assert("confidence"@[1] != "created_at"@[1]);
    assert("confidence"@[0] != "decay_rate"@[0]);
    assert("confidence"@[0] != "importance"@[0]);
    assert("created_at"@[0] != "decay_rate"@[0]);
    assert("created_at"@[0] != "importance"@[0]);
    assert("decay_rate"@[0] != "importance"@[0]);
    assert("entity_type"@[0] != "source_tier"@[0]);
    assert("entity_type"@[0] != "usage_count"@[0]);
    assert("source_tier"@[0] != "usage_count"@[0]);
    assert("consolidated"@[3] != "content_type"@[3]);
    assert("consolidated"@[0] != "last_updated"@[0]);
    assert("consolidated"@[0] != "trigger_type"@[0]);
    assert("consolidated"@[0] != "triggered_at"@[0]);
    assert("content_type"@[0] != "last_updated"@[0]);
    assert("content_type"@[0] != "trigger_type"@[0]);
    assert("content_type"@[0] != "triggered_at"@[0]);
    assert("last_updated"@[0] != "trigger_type"@[0]);
    assert("last_updated"@[0] != "triggered_at"@[0]);
    assert("trigger_type"@[7] != "triggered_at"@[7]);
    assert("anchor_record"@[0] != "trigger_value"@[0]);
    assert("canonical_name"@[0] != "evidence_count"@[0]);
    assert("canonical_name"@[0] != "procedure_type"@[0]);
    assert("canonical_name"@[0] != "valid_time_end"@[0]);
    assert("evidence_count"@[0] != "procedure_type"@[0]);
    assert("evidence_count"@[0] != "valid_time_end"@[0]);
    assert("procedure_type"@[0] != "valid_time_end"@[0]);
    assert("confidence_tier"@[3] != "consolidated_at"@[3]);
    assert("confidence_tier"@[0] != "inference_chain"@[0]);
    assert("confidence_tier"@[0] != "last_reinforced"@[0]);
    assert("consolidated_at"@[0] != "inference_chain"@[0]);
    assert("consolidated_at"@[0] != "last_reinforced"@[0]);
    assert("inference_chain"@[0] != "last_reinforced"@[0]);
    assert("transaction_time"@[2] != "trigger_patterns"@[2]);
    assert("transaction_time"@[0] != "valid_time_start"@[0]);
    assert("trigger_patterns"@[0] != "valid_time_start"@[0]);
}

/// The row of an episode that was written under an id.
pub open spec fn written_episode(x: EpisodeView, id: RecordIdView) -> RowView {
    episode_fields(x) + one("id"@, ValueView::Record(id))
}

/// What is written of an episode: each of its parts under the name of its column, and
/// nothing under the name of a part that it lacks.
pub proof fn lemma_written_episode(
    x: EpisodeView,
    id: RecordIdView,
    row: RowView,
)
    requires
        row == written_episode(x, id),
    ensures
        value_of(row, "id"@) == Some(ValueView::Record(id)),
        value_of(row, "agent_id"@) == Some(ValueView::Text(x.agent_id)),
        value_of(row, "org_id"@) == (match x.org_id {
            Some(v) => Some(ValueView::Text(v)),
            None => None,
        }),
        value_of(row, "user_id"@) == (match x.user_id {
            Some(v) => Some(ValueView::Text(v)),
            None => None,
        }),
        value_of(row, "content"@) == Some(ValueView::Text(x.content)),
        value_of(row, "content_type"@) == Some(ValueView::Text(x.content_type)),
        value_of(row, "embedding"@) == (match x.embedding {
            Some(v) => Some(ValueView::Reals(v)),
            None => None,
        }),
        value_of(row, "importance"@) == Some(ValueView::Real(x.importance)),
        value_of(row, "entities"@) == (match x.entities {
            Some(v) => Some(ValueView::Records(v)),
            None => None,
        }),
        value_of(row, "valid_time_start"@) == Some(ValueView::Time(x.valid_time_start)),
        value_of(row, "valid_time_end"@) == (match x.valid_time_end {
            Some(v) => Some(ValueView::Time(v)),
            None => None,
        }),
        value_of(row, "consolidated"@) == Some(ValueView::Bool(x.consolidated)),
        value_of(row, "consolidated_at"@) == (match x.consolidated_at {
            Some(v) => Some(ValueView::Time(v)),
            None => None,
        }),
        value_of(row, "summary"@) == (match x.summary {
            Some(v) => Some(ValueView::Text(v)),
            None => None,
        }),
        value_of(row, "source_tier"@) == Some(
            ValueView::Int(x.source_tier.number_spec() as i64),
        ),
        value_of(row, "metadata"@) == Some(ValueView::Json(x.metadata)),
{
    lemma_names_differ();
    lemma_values_of_parts();
}

/// Reading undoes writing: a row with the fields of an episode that was written, and
/// with its id, holds that episode.
/// The database sets `transaction_time` by itself.
pub proof fn an_episode_reads_back_as_written(
    x: EpisodeView,
    id: RecordIdView,
    row: RowView,
)
    requires
        forall|name: Seq<char>|
            name != "transaction_time"@ ==> #[trigger] value_of(
                row,
                name,
            ) == value_of(written_episode(x, id), name),
        column_fits(row, column("transaction_time"@, ColumnKind::Time, false)),
    ensures
        episode_of_row(row) == Ok::<EpisodeView, ErrorView>(
            EpisodeView {
                id: Some(id),
                transaction_time: time_at(row, "transaction_time"@),
                ..x
            },
        ),
{
    lemma_names_differ();
    lemma_written_episode(x, id, written_episode(x, id));
    lemma_tier_numbered(x.source_tier);
    lemma_no_misfit(row, episode_columns_spec());
}

/// The row of an entity that was written under an id.
pub open spec fn written_entity(x: EntityView, id: RecordIdView, now: Timestamp) -> RowView {
    entity_fields(x, now) + one("id"@, ValueView::Record(id))
}

/// What is written of an entity: each of its parts under the name of its column, and
/// nothing under the name of a part that it lacks.
pub proof fn lemma_written_entity(
    x: EntityView,
    id: RecordIdView,
    now: Timestamp,
    row: RowView,
)
    requires
        row == written_entity(x, id, now),
    ensures
        value_of(row, "id"@) == Some(ValueView::Record(id)),
        value_of(row, "agent_id"@) == Some(ValueView::Text(x.agent_id)),
        value_of(row, "org_id"@) == (match x.org_id {
            Some(v) => Some(ValueView::Text(v)),
            None => None,
        }),
        value_of(row, "canonical_name"@) == Some(ValueView::Text(x.canonical_name)),
        value_of(row, "aliases"@) == Some(ValueView::Texts(x.aliases)),
        value_of(row, "entity_type"@) == Some(ValueView::Text(x.entity_type)),
        value_of(row, "attributes"@) == Some(ValueView::Json(x.attributes)),
        value_of(row, "embedding"@) == (match x.embedding {
            Some(v) => Some(ValueView::Reals(v)),
            None => None,
        }),
        value_of(row, "confidence"@) == Some(ValueView::Real(x.confidence)),
        value_of(row, "confidence_tier"@) == Some(
            ValueView::Int(x.confidence_tier.number_spec() as i64),
        ),
        value_of(row, "anchor_record"@) == (match x.anchor_record {
            Some(v) => Some(ValueView::Record(v)),
            None => None,
        }),
        value_of(row, "created_at"@) == Some(ValueView::Time(or_now(x.created_at, now))),
        value_of(row, "last_updated"@) == Some(ValueView::Time(or_now(x.last_updated, now))),
        value_of(row, "disambiguation_log"@) == (match x.disambiguation_log {
            Some(v) => Some(ValueView::Jsons(v)),
            None => None,
        }),
{
    lemma_names_differ();
    lemma_values_of_parts();
}

/// Reading undoes writing: a row with the fields of an entity that was written, and
/// with its id, holds that entity.
/// A time that it lacked is that of the write.
pub proof fn an_entity_reads_back_as_written(
    x: EntityView,
    id: RecordIdView,
    now: Timestamp,
    row: RowView,
)
    requires
        forall|name: Seq<char>| #[trigger]
            value_of(row, name) == value_of(written_entity(x, id, now), name),
    ensures
        entity_of_row(row) == Ok::<EntityView, ErrorView>(
            EntityView {
                id: Some(id),
                created_at: Some(or_now(x.created_at, now)),
                last_updated: Some(or_now(x.last_updated, now)),
                ..x
            },
        ),
{
    lemma_names_differ();
    lemma_written_entity(x, id, now, written_entity(x, id, now));
    lemma_tier_numbered(x.confidence_tier);
    lemma_no_misfit(row, entity_columns_spec());
}

/// The row of a concept that was written under an id.
pub open spec fn written_concept(x: ConceptView, id: RecordIdView) -> RowView {
    concept_fields(x) + one("id"@, ValueView::Record(id))
}

/// What is written of a concept: each of its parts under the name of its column, and
/// nothing under the name of a part that it lacks.
pub proof fn lemma_written_concept(
    x: ConceptView,
    id: RecordIdView,
    row: RowView,
)
    requires
        row == written_concept(x, id),
    ensures
        value_of(row, "id"@) == Some(ValueView::Record(id)),
        value_of(row, "agent_id"@) == Some(ValueView::Text(x.agent_id)),
        value_of(row, "org_id"@) == (match x.org_id {
            Some(v) => Some(ValueView::Text(v)),
            None => None,
        }),
        value_of(row, "content"@) == Some(ValueView::Text(x.content)),
        value_of(row, "embedding"@) == (match x.embedding {
            Some(v) => Some(ValueView::Reals(v)),
            None => None,
        }),
        value_of(row, "confidence"@) == Some(ValueView::Real(x.confidence)),
        value_of(row, "source_tier"@) == Some(
            ValueView::Int(x.source_tier.number_spec() as i64),
        ),
        value_of(row, "reinforcement_count"@) == Some(ValueView::Int(x.reinforcement_count as i64)),
        value_of(row, "decay_rate"@) == Some(ValueView::Real(x.decay_rate)),
        value_of(row, "inferred"@) == Some(ValueView::Bool(x.inferred)),
        value_of(row, "inference_chain"@) == (match x.inference_chain {
            Some(v) => Some(ValueView::Texts(v)),
            None => None,
        }),
        value_of(row, "valid_time_start"@) == Some(ValueView::Time(x.valid_time_start)),
        value_of(row, "valid_time_end"@) == (match x.valid_time_end {
            Some(v) => Some(ValueView::Time(v)),
            None => None,
        }),
{
    lemma_names_differ();
    lemma_values_of_parts();
}

/// Reading undoes writing: a row with the fields of a concept that was written, and
/// with its id, holds that concept.
/// The database sets `last_reinforced` and `transaction_time` by itself.
pub proof fn a_concept_reads_back_as_written(
    x: ConceptView,
    id: RecordIdView,
    row: RowView,
)
    requires
        forall|name: Seq<char>|
            name != "last_reinforced"@ && name != "transaction_time"@ ==> #[trigger] value_of(
                row,
                name,
            ) == value_of(written_concept(x, id), name),
        column_fits(row, column("last_reinforced"@, ColumnKind::Time, false)),
        column_fits(row, column("transaction_time"@, ColumnKind::Time, false)),
    ensures
        concept_of_row(row) == Ok::<ConceptView, ErrorView>(
            ConceptView {
                id: Some(id),
                last_reinforced: time_at(row, "last_reinforced"@),
                transaction_time: time_at(row, "transaction_time"@),
                ..x
            },
        ),
{
    lemma_names_differ();
    lemma_written_concept(x, id, written_concept(x, id));
    lemma_tier_numbered(x.source_tier);
    lemma_no_misfit(row, concept_columns_spec());
}

/// The row of a preference that was written under an id.
pub open spec fn written_preference(x: PreferenceView, id: RecordIdView) -> RowView {
    preference_fields(x) + one("id"@, ValueView::Record(id))
}

/// What is written of a preference: each of its parts under the name of its column, and
/// nothing under the name of a part that it lacks.
pub proof fn lemma_written_preference(
    x: PreferenceView,
    id: RecordIdView,
    row: RowView,
)
    requires
        row == written_preference(x, id),
    ensures
        value_of(row, "id"@) == Some(ValueView::Record(id)),
        value_of(row, "agent_id"@) == Some(ValueView::Text(x.agent_id)),
        value_of(row, "org_id"@) == (match x.org_id {
            Some(v) => Some(ValueView::Text(v)),
            None => None,
        }),
        value_of(row, "user_id"@) == (match x.user_id {
            Some(v) => Some(ValueView::Text(v)),
            None => None,
        }),
        value_of(row, "category"@) == Some(ValueView::Text(x.category)),
        value_of(row, "content"@) == Some(ValueView::Text(x.content)),
        value_of(row, "direction"@) == Some(ValueView::Text(x.direction.name())),
        value_of(row, "strength"@) == Some(ValueView::Real(x.strength)),
        value_of(row, "source_tier"@) == Some(
            ValueView::Int(x.source_tier.number_spec() as i64),
        ),
        value_of(row, "evidence_count"@) == Some(ValueView::Int(x.evidence_count as i64)),
        value_of(row, "valid_time_start"@) == Some(ValueView::Time(x.valid_time_start)),
        value_of(row, "valid_time_end"@) == (match x.valid_time_end {
            Some(v) => Some(ValueView::Time(v)),
            None => None,
        }),
{
    lemma_names_differ();
    lemma_values_of_parts();
}

/// Reading undoes writing: a row with the fields of a preference that was written, and
/// with its id, holds that preference.
/// The database sets `last_reinforced`, `created_at` and `transaction_time` by itself.
pub proof fn a_preference_reads_back_as_written(
    x: PreferenceView,
    id: RecordIdView,
    row: RowView,
)
    requires
        forall|name: Seq<char>|
            name != "last_reinforced"@ && name != "created_at"@ && name != "transaction_time"@
                ==> #[trigger] value_of(row, name) == value_of(written_preference(x, id), name),
        column_fits(row, column("last_reinforced"@, ColumnKind::Time, false)),
        column_fits(row, column("created_at"@, ColumnKind::Time, false)),
        column_fits(row, column("transaction_time"@, ColumnKind::Time, false)),
    ensures
        preference_of_row(row) == Ok::<PreferenceView, ErrorView>(
            PreferenceView {
                id: Some(id),
                last_reinforced: time_at(row, "last_reinforced"@),
                created_at: time_at(row, "created_at"@),
                transaction_time: time_at(row, "transaction_time"@),
                ..x
            },
        ),
{
    lemma_names_differ();
    lemma_written_preference(x, id, written_preference(x, id));
    lemma_direction_named(x.direction);
    lemma_tier_numbered(x.source_tier);
    lemma_no_misfit(row, preference_columns_spec());
}

/// The row of a procedure that was written under an id.
pub open spec fn written_procedure(x: ProcedureView, id: RecordIdView) -> RowView {
    procedure_fields(x) + one("id"@, ValueView::Record(id))
}

/// What is written of a procedure: each of its parts under the name of its column, and
/// nothing under the name of a part that it lacks.
pub proof fn lemma_written_procedure(
    x: ProcedureView,
    id: RecordIdView,
    row: RowView,
)
    requires
        row == written_procedure(x, id),
    ensures
        value_of(row, "id"@) == Some(ValueView::Record(id)),
        value_of(row, "agent_id"@) == Some(ValueView::Text(x.agent_id)),
        value_of(row, "org_id"@) == (match x.org_id {
            Some(v) => Some(ValueView::Text(v)),
            None => None,
        }),
        value_of(row, "name"@) == Some(ValueView::Text(x.name)),
        value_of(row, "procedure_type"@) == Some(ValueView::Text(x.procedure_type)),
        value_of(row, "content"@) == Some(ValueView::Text(x.content)),
        value_of(row, "embedding"@) == (match x.embedding {
            Some(v) => Some(ValueView::Reals(v)),
            None => None,
        }),
        value_of(row, "trigger_patterns"@) == Some(ValueView::Texts(x.trigger_patterns)),
        value_of(row, "usage_count"@) == Some(ValueView::Int(x.usage_count as i64)),
        value_of(row, "last_used"@) == (match x.last_used {
            Some(v) => Some(ValueView::Time(v)),
            None => None,
        }),
{
    lemma_names_differ();
    lemma_values_of_parts();
}

/// Reading undoes writing: a row with the fields of a procedure that was written, and
/// with its id, holds that procedure.
/// The database sets `created_at` by itself.
pub proof fn a_procedure_reads_back_as_written(
    x: ProcedureView,
    id: RecordIdView,
    row: RowView,
)
    requires
        forall|name: Seq<char>|
            name != "created_at"@ ==> #[trigger] value_of(
                row,
                name,
            ) == value_of(written_procedure(x, id), name),
        column_fits(row, column("created_at"@, ColumnKind::Time, false)),
    ensures
        procedure_of_row(row) == Ok::<ProcedureView, ErrorView>(
            ProcedureView {
                id: Some(id),
                created_at: time_at(row, "created_at"@),
                ..x
            },
        ),
{
    lemma_names_differ();
    lemma_written_procedure(x, id, written_procedure(x, id));
    lemma_no_misfit(row, procedure_columns_spec());
}

/// The row of a task that was written under an id.
pub open spec fn written_task(x: TaskView, id: RecordIdView) -> RowView {
    task_fields(x) + one("id"@, ValueView::Record(id))
}

/// What is written of a task: each of its parts under the name of its column, and
/// nothing under the name of a part that it lacks.
pub proof fn lemma_written_task(
    x: TaskView,
    id: RecordIdView,
    row: RowView,
)
    requires
        row == written_task(x, id),
    ensures
        value_of(row, "id"@) == Some(ValueView::Record(id)),
        value_of(row, "agent_id"@) == Some(ValueView::Text(x.agent_id)),
        value_of(row, "org_id"@) == (match x.org_id {
            Some(v) => Some(ValueView::Text(v)),
            None => None,
        }),
        value_of(row, "user_id"@) == (match x.user_id {
            Some(v) => Some(ValueView::Text(v)),
            None => None,
        }),
        value_of(row, "content"@) == Some(ValueView::Text(x.content)),
        value_of(row, "trigger_type"@) == Some(ValueView::Text(x.trigger_type)),
        value_of(row, "trigger_value"@) == Some(ValueView::Text(x.trigger_value)),
        value_of(row, "status"@) == Some(ValueView::Text(x.status.name())),
        value_of(row, "triggered_at"@) == (match x.triggered_at {
            Some(v) => Some(ValueView::Time(v)),
            None => None,
        }),
{
    lemma_names_differ();
    lemma_values_of_parts();
}

/// Reading undoes writing: a row with the fields of a task that was written, and
/// with its id, holds that task.
/// The database sets `created_at` by itself.
pub proof fn a_task_reads_back_as_written(
    x: TaskView,
    id: RecordIdView,
    row: RowView,
)
    requires
        forall|name: Seq<char>|
            name != "created_at"@ ==> #[trigger] value_of(
                row,
                name,
            ) == value_of(written_task(x, id), name),
        column_fits(row, column("created_at"@, ColumnKind::Time, false)),
    ensures
        task_of_row(row) == Ok::<TaskView, ErrorView>(
            TaskView {
                id: Some(id),
                created_at: time_at(row, "created_at"@),
                ..x
            },
        ),
{
    lemma_names_differ();
    lemma_written_task(x, id, written_task(x, id));
    lemma_status_named(x.status);
    lemma_no_misfit(row, task_columns_spec());
}

} // verus!

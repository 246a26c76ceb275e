//! Telling entities apart: which known entity a mention is of, what a mention
//! adds to it, and which entities an episode is linked to.
use vstd::prelude::*;
use crate::memory::extraction::{ExtractedMention, MentionView, ReferenceKind};
use crate::sorting::{
    in_rank_order, is_text_le, ranked, ranked_commutes, ranked_insert,
    ranked_is_a_sorted_permutation,
    ranked_keeps_membership, sort_ranked, text_le, text_le_antisymmetric, text_le_total,
    text_le_transitive, Rank, Ranked,
};
use crate::storage::record::{same_opt_id, Entity, EntityView};
use crate::text::{
    chars_of, clone_opt_text, contains_text, lowercase, lowercase_of, occurs_in, same_text,
    stands_at,
};

verus! {

// --- Merging -----------------------------------------------------------------

/// The entity with what a mention adds: the words of the mention as an alias,
/// and its tier where that is the stronger.
pub open spec fn merged_entity(found: EntityView, m: MentionView) -> EntityView {
    EntityView {
        aliases: if found.aliases.contains(m.surface) {
            found.aliases
        } else {
            found.aliases.push(m.surface)
        },
        confidence_tier: if m.source_tier.number_spec() < found.confidence_tier.number_spec() {
            m.source_tier
        } else {
            found.confidence_tier
        },
        ..found
    }
}

/// The entity that a mention of something unknown stands for, with the embedding
/// of its name.
pub open spec fn fresh_entity(
    agent: Seq<char>,
    org: Option<Seq<char>>,
    m: MentionView,
    embedding: Seq<u32>,
) -> EntityView {
    EntityView {
        id: None,
        agent_id: agent,
        org_id: org,
        canonical_name: m.canonical_name,
        aliases: seq![m.surface],
        entity_type: m.entity_type,
        attributes: "{}"@,
        embedding: Some(embedding),
        confidence: m.confidence,
        confidence_tier: m.source_tier,
        anchor_record: None,
        created_at: None,
        last_updated: None,
        disambiguation_log: None,
    }
}

fn has_alias(aliases: &Vec<String>, surface: &str) -> (r: bool)
    ensures
        r == aliases.deep_view().contains(surface@),
{
    let mut i: usize = 0;
    while i < aliases.len()
        invariant
            i <= aliases@.len(),
            forall|k: int| 0 <= k < i ==> aliases.deep_view()[k] != surface@,
        decreases aliases@.len() - i,
    {
        assert(aliases.deep_view()[i as int] == aliases@[i as int]@);
        if same_text(aliases[i].as_str(), surface) {
            return true;
        }
        i = i + 1;
    }
    false
}

/// Adds to an entity what a mention of it says.
pub fn merge_mention(found: Entity, m: &ExtractedMention) -> (r: Entity)
    ensures
        r.deep_view() == merged_entity(found.deep_view(), m.deep_view()),
{
    let mut out = found;
    if !has_alias(&out.aliases, m.surface.as_str()) {
        let ghost before = out.aliases.deep_view();
        out.aliases.push(m.surface.clone());
        assert(out.aliases.deep_view() =~= before.push(m.surface@));
    }
    if m.source_tier.number() < out.confidence_tier.number() {
        out.confidence_tier = m.source_tier;
    }
    out
}

/// The entity that a mention of something unknown stands for, with the embedding
/// of its name.
pub fn entity_of_mention(
    agent_id: &str,
    org_id: &Option<String>,
    m: &ExtractedMention,
    embedding: Vec<u32>,
) -> (r: Entity)
    ensures
        r.deep_view() == fresh_entity(agent_id@, org_id.deep_view(), m.deep_view(), embedding@),
{
    let aliases = vec![m.surface.clone()];
    assert(aliases.deep_view() =~= seq![m.surface@]);
    assert(embedding.deep_view() =~= embedding@);
    Entity {
        id: None,
        agent_id: agent_id.to_owned(),
        org_id: clone_opt_text(org_id),
        canonical_name: m.canonical_name.clone(),
        aliases,
        entity_type: m.entity_type.clone(),
        attributes: "{}".to_owned(),
        embedding: Some(embedding),
        confidence: m.confidence,
        confidence_tier: m.source_tier,
        anchor_record: None,
        created_at: None,
        last_updated: None,
        disambiguation_log: None,
    }
}

/// Merging takes nothing away: the aliases stay, in place, the mention's words
/// are among them, the tier never gets weaker, and name, type, anchor and
/// embedding stay.
pub proof fn merging_only_adds(found: EntityView, m: MentionView)
    ensures
        found.aliases.len() <= merged_entity(found, m).aliases.len(),
        found.aliases == merged_entity(found, m).aliases.take(found.aliases.len() as int),
        merged_entity(found, m).aliases.contains(m.surface),
        merged_entity(found, m).confidence_tier.number_spec()
            <= found.confidence_tier.number_spec(),
        merged_entity(found, m).confidence_tier.number_spec() <= m.source_tier.number_spec(),
        merged_entity(found, m).id == found.id,
        merged_entity(found, m).canonical_name == found.canonical_name,
        merged_entity(found, m).entity_type == found.entity_type,
        merged_entity(found, m).anchor_record == found.anchor_record,
        merged_entity(found, m).embedding == found.embedding,
{
    let out = merged_entity(found, m);
    assert(found.aliases == out.aliases.take(found.aliases.len() as int));
    if !found.aliases.contains(m.surface) {
        assert(out.aliases[found.aliases.len() as int] == m.surface);
    }
}

/// Merging the same mention again changes nothing.
pub proof fn merging_twice_is_merging_once(found: EntityView, m: MentionView)
    ensures
        merged_entity(merged_entity(found, m), m) == merged_entity(found, m),
{
    merging_only_adds(found, m);
}

/// The entity with what the explicit mentions from position `i` on add to it.
pub open spec fn merged_with_all(found: EntityView, mentions: Seq<MentionView>, i: int) -> EntityView
    decreases mentions.len() - i,
{
    if i < 0 || i >= mentions.len() {
        found
    } else if mentions[i].reference_kind == ReferenceKind::Explicit {
        merged_with_all(merged_entity(found, mentions[i]), mentions, i + 1)
    } else {
        merged_with_all(found, mentions, i + 1)
    }
}

/// Merging many mentions takes nothing away and adds no alias twice: the aliases
/// stay, in place, the words of every explicit mention are among them, the tier
/// is the strongest of all, and the rest of the entity stays as it was.
pub proof fn merging_many_only_adds(found: EntityView, mentions: Seq<MentionView>, i: int)
    requires
        0 <= i <= mentions.len(),
    ensures
        ({
            let all = merged_with_all(found, mentions, i);
            &&& found.aliases.len() <= all.aliases.len()
            &&& found.aliases == all.aliases.take(found.aliases.len() as int)
            &&& found.aliases.no_duplicates() ==> all.aliases.no_duplicates()
            &&& forall|k: int|
                found.aliases.len() <= k < all.aliases.len() ==> exists|j: int|
                    i <= j < mentions.len() && (#[trigger] mentions[j]).reference_kind
                        == ReferenceKind::Explicit && mentions[j].surface
                        == #[trigger] all.aliases[k]
            &&& forall|k: int|
                i <= k < mentions.len() && (#[trigger] mentions[k]).reference_kind
                    == ReferenceKind::Explicit ==> all.aliases.contains(mentions[k].surface)
                    && all.confidence_tier.number_spec() <= mentions[k].source_tier.number_spec()
            &&& all.confidence_tier.number_spec() <= found.confidence_tier.number_spec()
            &&& all.confidence_tier == found.confidence_tier || exists|k: int|
                i <= k < mentions.len() && (#[trigger] mentions[k]).reference_kind
                    == ReferenceKind::Explicit && mentions[k].source_tier == all.confidence_tier
            &&& all == (EntityView {
                aliases: all.aliases,
                confidence_tier: all.confidence_tier,
                ..found
            })
        }),
    decreases mentions.len() - i,
{
    if i < mentions.len() {
        let m = mentions[i];
        let next = if m.reference_kind == ReferenceKind::Explicit {
            merged_entity(found, m)
        } else {
            found
        };
        if m.reference_kind == ReferenceKind::Explicit {
            merging_only_adds(found, m);
        }
        merging_many_only_adds(next, mentions, i + 1);
        let all = merged_with_all(found, mentions, i);
        assert(all == merged_with_all(next, mentions, i + 1));
        let n = found.aliases.len() as int;
        assert(all.aliases.take(n) == found.aliases) by {
            assert(all.aliases.take(next.aliases.len() as int).take(n) == all.aliases.take(n));
        }
        assert forall|k: int| n <= k < all.aliases.len() implies exists|j: int|
            i <= j < mentions.len() && (#[trigger] mentions[j]).reference_kind
                == ReferenceKind::Explicit && mentions[j].surface
                == #[trigger] all.aliases[k] by {
            if k < next.aliases.len() {
                assert(all.aliases.take(next.aliases.len() as int)[k] == next.aliases[k]);
                assert(mentions[i].surface == all.aliases[k]);
            } else {
                let j = choose|j: int|
                    i + 1 <= j < mentions.len() && (#[trigger] mentions[j]).reference_kind
                        == ReferenceKind::Explicit && mentions[j].surface == all.aliases[k];
                assert(mentions[j].surface == all.aliases[k]);
            }
        }
        assert forall|k: int|
            i <= k < mentions.len() && (#[trigger] mentions[k]).reference_kind
                == ReferenceKind::Explicit implies all.aliases.contains(mentions[k].surface)
            && all.confidence_tier.number_spec() <= mentions[k].source_tier.number_spec() by {
            if k == i {
                let j = choose|j: int|
                    0 <= j < next.aliases.len() && next.aliases[j] == m.surface;
                assert(all.aliases.take(next.aliases.len() as int)[j] == all.aliases[j]);
            }
        }
        if all.confidence_tier != found.confidence_tier {
            if next.confidence_tier == all.confidence_tier {
                assert(mentions[i].source_tier == all.confidence_tier);
            }
        }
    }
}

// --- The entities of a session -----------------------------------------------

/// A full name starts with the short name, followed by a space.
pub open spec fn extends_name(full: Seq<char>, short: Seq<char>) -> bool {
    full.len() > short.len() && full.take(short.len() as int) == short && full[short.len() as int]
        == ' '
}

/// The first entity of the agent, from position `i` on, whose name in lowercase
/// starts with the short name.
pub open spec fn first_extending(
    entities: Seq<EntityView>,
    agent: Seq<char>,
    short: Seq<char>,
    i: int,
) -> Option<EntityView>
    decreases entities.len() - i,
{
    if i < 0 || i >= entities.len() {
        None
    } else if entities[i].agent_id == agent && extends_name(
        lowercase_of(entities[i].canonical_name),
        short,
    ) {
        Some(entities[i])
    } else {
        first_extending(entities, agent, short, i + 1)
    }
}

/// The entity that a mention may be short for: one of the agent whose name
/// starts with the mention's one word.
pub open spec fn soft_match(entities: Seq<EntityView>, agent: Seq<char>, name: Seq<char>) -> Option<
    EntityView,
> {
    if occurs_in(name, " "@) {
        None
    } else {
        first_extending(entities, agent, lowercase_of(name), 0)
    }
}

/// The entities without those that share the id or the name of `e`.
pub open spec fn without_entity(entities: Seq<EntityView>, e: EntityView) -> Seq<EntityView>
    decreases entities.len(),
{
    if entities.len() == 0 {
        Seq::empty()
    } else {
        let front = without_entity(entities.drop_last(), e);
        if entities.last().id != e.id && entities.last().canonical_name != e.canonical_name {
            front.push(entities.last())
        } else {
            front
        }
    }
}

/// The entities with `e`, in place of all that share its id or its name.
pub open spec fn with_entity(entities: Seq<EntityView>, e: EntityView) -> Seq<EntityView> {
    without_entity(entities, e).push(e)
}

/// The entities with all of `more`, one after the other.
pub open spec fn with_entities(entities: Seq<EntityView>, more: Seq<EntityView>) -> Seq<EntityView>
    decreases more.len(),
{
    if more.len() == 0 {
        entities
    } else {
        with_entity(with_entities(entities, more.drop_last()), more.last())
    }
}

/// The entities of one agent.
pub open spec fn entities_of(entities: Seq<EntityView>, agent: Seq<char>) -> Seq<EntityView>
    decreases entities.len(),
{
    if entities.len() == 0 {
        Seq::empty()
    } else {
        let front = entities_of(entities.drop_last(), agent);
        if entities.last().agent_id == agent {
            front.push(entities.last())
        } else {
            front
        }
    }
}

/// The entities that ingestions have committed since the process started, latest
/// last.
#[derive(Debug)]
pub struct SessionEntities {
    entities: Vec<Entity>,
}

impl View for SessionEntities {
    type V = Seq<EntityView>;

    closed spec fn view(&self) -> Seq<EntityView> {
        self.entities.deep_view()
    }
}

impl Default for SessionEntities {
    /// No entities.
    fn default() -> (r: Self)
        ensures
            r@ == Seq::<EntityView>::empty(),
    {
        SessionEntities::new()
    }
}

fn name_extends(full: &str, short: &str) -> (r: bool)
    ensures
        r == extends_name(full@, short@),
{
    let f = chars_of(full);
    let s = chars_of(short);
    let n: usize = s.len();
    if f.len() <= n {
        return false;
    }
    assert(f@.subrange(0, n as int) == f@.take(n as int));
    stands_at(&f, &s, 0) && f[n] == ' '
}

/// A copy of each entity.
pub fn clone_entities(v: &Vec<Entity>) -> (r: Vec<Entity>)
    ensures
        r.deep_view() == v.deep_view(),
{
    let mut out: Vec<Entity> = Vec::new();
    let mut i: usize = 0;
    while i < v.len()
        invariant
            i <= v@.len(),
            out@.len() == i,
            forall|k: int| 0 <= k < i ==> (#[trigger] out@[k]).deep_view() == v@[k].deep_view(),
        decreases v@.len() - i,
    {
        let e = v[i].copy();
        out.push(e);
        i = i + 1;
    }
    assert(out.deep_view() =~= v.deep_view());
    out
}

impl SessionEntities {
    /// No entities.
    pub fn new() -> (r: Self)
        ensures
            r@ == Seq::<EntityView>::empty(),
    {
        let entities: Vec<Entity> = Vec::new();
        assert(entities.deep_view() =~= Seq::<EntityView>::empty());
        SessionEntities { entities }
    }

    /// The entities of one agent.
    pub fn list_agent_entities(&self, agent_id: &str) -> (r: Vec<Entity>)
        ensures
            r.deep_view() == entities_of(self@, agent_id@),
    {
        let ghost all = self@;
        let mut out: Vec<Entity> = Vec::new();
        let mut i: usize = 0;
        assert(out.deep_view() =~= entities_of(all.take(0), agent_id@));
        while i < self.entities.len()
            invariant
                i <= self.entities@.len(),
                all == self.entities.deep_view(),
                out.deep_view() == entities_of(all.take(i as int), agent_id@),
            decreases self.entities@.len() - i,
        {
            assert(all.take(i + 1).drop_last() == all.take(i as int));
            assert(all.take(i + 1).last() == self.entities@[i as int].deep_view());
            if same_text(self.entities[i].agent_id.as_str(), agent_id) {
                let ghost before = out.deep_view();
                let e = self.entities[i].copy();
                out.push(e);
                assert(out.deep_view() =~= before.push(all[i as int]));
            }
            i = i + 1;
        }
        assert(all.take(i as int) == all);
        out
    }

    /// Puts an entity in place of all that share its id or its name.
    pub fn record_session_entity(&mut self, entity: Entity)
        ensures
            final(self)@ == with_entity(old(self)@, entity.deep_view()),
    {
        let ghost all = self@;
        let ghost e = entity.deep_view();
        let mut kept: Vec<Entity> = Vec::new();
        let mut i: usize = 0;
        assert(kept.deep_view() =~= without_entity(all.take(0), e));
        while i < self.entities.len()
            invariant
                i <= self.entities@.len(),
                all == self.entities.deep_view(),
                e == entity.deep_view(),
                kept.deep_view() == without_entity(all.take(i as int), e),
            decreases self.entities@.len() - i,
        {
            assert(all.take(i + 1).drop_last() == all.take(i as int));
            assert(all.take(i + 1).last() == self.entities@[i as int].deep_view());
            if !same_opt_id(&self.entities[i].id, &entity.id) && !same_text(
                self.entities[i].canonical_name.as_str(),
                entity.canonical_name.as_str(),
            ) {
                let ghost before = kept.deep_view();
                let copy = self.entities[i].copy();
                kept.push(copy);
                assert(kept.deep_view() =~= before.push(all[i as int]));
            }
            i = i + 1;
        }
        assert(all.take(i as int) == all);
        let ghost before = kept.deep_view();
        kept.push(entity);
        assert(kept.deep_view() =~= before.push(e));
        self.entities = kept;
    }

    /// Puts each of some entities in place of all that share its id or its name.
    pub fn record_session_entities(&mut self, entities: &Vec<Entity>)
        ensures
            final(self)@ == with_entities(old(self)@, entities.deep_view()),
    {
        let ghost first = self@;
        let ghost all = entities.deep_view();
        let mut i: usize = 0;
        while i < entities.len()
            invariant
                i <= entities@.len(),
                all == entities.deep_view(),
                self@ == with_entities(first, all.take(i as int)),
            decreases entities@.len() - i,
        {
            assert(all.take(i + 1).drop_last() == all.take(i as int));
            assert(all.take(i + 1).last() == entities@[i as int].deep_view());
            self.record_session_entity(entities[i].copy());
            i = i + 1;
        }
        assert(all.take(i as int) == all);
    }

    /// A copy of the session.
    pub fn copy(&self) -> (r: SessionEntities)
        ensures
            r@ == self@,
    {
        SessionEntities { entities: clone_entities(&self.entities) }
    }

    /// The entity of the agent that a name in lowercase may be short for.
    pub fn find_extending(&self, agent_id: &str, short: &str) -> (r: Option<Entity>)
        ensures
            r.deep_view() == first_extending(self@, agent_id@, short@, 0),
    {
        let ghost all = self@;
        let mut i: usize = 0;
        while i < self.entities.len()
            invariant
                i <= self.entities@.len(),
                all == self.entities.deep_view(),
                first_extending(all, agent_id@, short@, i as int) == first_extending(
                    all,
                    agent_id@,
                    short@,
                    0,
                ),
            decreases self.entities@.len() - i,
        {
            assert(all[i as int] == self.entities@[i as int].deep_view());
            if same_text(self.entities[i].agent_id.as_str(), agent_id) && name_extends(
                lowercase(self.entities[i].canonical_name.as_str()).as_str(),
                short,
            ) {
                return Some(self.entities[i].copy());
            }
            i = i + 1;
        }
        None
    }

    /// The entity of the agent that a mention may be short for.
    pub fn find_soft_match(&self, agent_id: &str, name: &str) -> (r: Option<Entity>)
        ensures
            r.deep_view() == soft_match(self@, agent_id@, name@),
    {
        if contains_text(name, " ") {
            None
        } else {
            self.find_extending(agent_id, lowercase(name).as_str())
        }
    }
}

/// No two of the entities share an id or a name.
pub open spec fn all_apart(entities: Seq<EntityView>) -> bool {
    forall|i: int, j: int|
        0 <= i < j < entities.len() ==> (#[trigger] entities[i]).id != (#[trigger] entities[j]).id
            && entities[i].canonical_name != entities[j].canonical_name
}

proof fn lemma_without(entities: Seq<EntityView>, e: EntityView)
    ensures
        forall|i: int|
            0 <= i < without_entity(entities, e).len() ==> (#[trigger] without_entity(
                entities,
                e,
            )[i]).id != e.id && without_entity(entities, e)[i].canonical_name != e.canonical_name,
        forall|x: EntityView| #[trigger]
            without_entity(entities, e).contains(x) <==> entities.contains(x) && x.id != e.id
                && x.canonical_name != e.canonical_name,
        all_apart(entities) ==> all_apart(without_entity(entities, e)),
    decreases entities.len(),
{
    if entities.len() > 0 {
        let before = entities.drop_last();
        let last = entities.last();
        lemma_without(before, e);
        let front = without_entity(before, e);
        let all = without_entity(entities, e);
        assert(entities == before.push(last));
        assert forall|x: EntityView| #[trigger] all.contains(x) <==> entities.contains(x) && x.id
            != e.id && x.canonical_name != e.canonical_name by {
            if all.contains(x) {
                let k = choose|k: int| 0 <= k < all.len() && all[k] == x;
                if k < front.len() {
                    assert(front[k] == x);
                    assert(front.contains(x));
                    let j = choose|j: int| 0 <= j < before.len() && before[j] == x;
                    assert(entities[j] == x);
                } else {
                    assert(entities[entities.len() - 1] == x);
                }
            }
            if entities.contains(x) && x.id != e.id && x.canonical_name != e.canonical_name {
                let j = choose|j: int| 0 <= j < entities.len() && entities[j] == x;
                if j < before.len() {
                    assert(before[j] == x);
                    assert(front.contains(x));
                    let k = choose|k: int| 0 <= k < front.len() && front[k] == x;
                    assert(all[k] == x);
                } else {
                    assert(all[all.len() - 1] == x);
                }
            }
        }
        if all_apart(entities) {
            assert forall|i: int, j: int| 0 <= i < j < before.len() implies (#[trigger] before[i]).id
                != (#[trigger] before[j]).id && before[i].canonical_name
                != before[j].canonical_name by {
                assert(entities[i].id != entities[j].id);
            }
            assert forall|i: int, j: int| 0 <= i < j < all.len() implies (#[trigger] all[i]).id
                != (#[trigger] all[j]).id && all[i].canonical_name != all[j].canonical_name by {
                if j == front.len() {
                    assert(front.contains(front[i]));
                    assert(before.contains(front[i]));
                    let k = choose|k: int| 0 <= k < before.len() && before[k] == front[i];
                    assert(entities[k].id != entities[entities.len() - 1].id);
                } else {
                    assert(front[i].id != front[j].id);
                }
            }
        }
    }
}

/// Recording an entity keeps the session's entities apart, keeps each that
/// shares neither id nor name with it, and drops the others.
pub proof fn recording_replaces(entities: Seq<EntityView>, e: EntityView)
    ensures
        all_apart(entities) ==> all_apart(with_entity(entities, e)),
        with_entity(entities, e).last() == e,
        forall|x: EntityView| #[trigger]
            with_entity(entities, e).contains(x) <==> x == e || (entities.contains(x) && x.id
                != e.id && x.canonical_name != e.canonical_name),
{
    lemma_without(entities, e);
    let front = without_entity(entities, e);
    let all = with_entity(entities, e);
    assert(all == front.push(e));
    assert forall|x: EntityView| #[trigger] all.contains(x) <==> x == e || (entities.contains(x)
        && x.id != e.id && x.canonical_name != e.canonical_name) by {
        if all.contains(x) {
            let k = choose|k: int| 0 <= k < all.len() && all[k] == x;
            if k < front.len() {
                assert(front[k] == x);
                assert(front.contains(x));
            }
        }
        if x == e {
            assert(all[front.len() as int] == x);
        } else if front.contains(x) {
            let k = choose|k: int| 0 <= k < front.len() && front[k] == x;
            assert(all[k] == x);
        }
    }
    if all_apart(entities) {
        assert forall|i: int, j: int| 0 <= i < j < all.len() implies (#[trigger] all[i]).id != (
        #[trigger] all[j]).id && all[i].canonical_name != all[j].canonical_name by {
            if j < front.len() {
                assert(front[i].id != front[j].id);
            } else {
                assert(all[i] == front[i]);
            }
        }
    }
}

proof fn lemma_first_extending(
    entities: Seq<EntityView>,
    agent: Seq<char>,
    short: Seq<char>,
    i: int,
)
    requires
        0 <= i,
    ensures
        match first_extending(entities, agent, short, i) {
            Some(e) => entities.contains(e) && e.agent_id == agent && extends_name(
                lowercase_of(e.canonical_name),
                short,
            ),
            None => forall|k: int|
                i <= k < entities.len() ==> !((#[trigger] entities[k]).agent_id == agent
                    && extends_name(lowercase_of(entities[k].canonical_name), short)),
        },
    decreases entities.len() - i,
{
    if i < entities.len() && !(entities[i].agent_id == agent && extends_name(
        lowercase_of(entities[i].canonical_name),
        short,
    )) {
        lemma_first_extending(entities, agent, short, i + 1);
    }
}

/// A session knows what was written last: once some entities were recorded, each
/// is known as it was written, unless a later one shares its id or its name.
pub proof fn the_last_copy_is_known(entities: Seq<EntityView>, more: Seq<EntityView>, k: int)
    requires
        0 <= k < more.len(),
        forall|j: int|
            k < j < more.len() ==> (#[trigger] more[j]).id != more[k].id && more[j].canonical_name
                != more[k].canonical_name,
    ensures
        with_entities(entities, more).contains(more[k]),
    decreases more.len(),
{
    let front = more.drop_last();
    recording_replaces(with_entities(entities, front), more.last());
    if k < more.len() - 1 {
        assert forall|j: int| k < j < front.len() implies (#[trigger] front[j]).id != front[k].id
            && front[j].canonical_name != front[k].canonical_name by {
            assert(front[j] == more[j]);
        }
        the_last_copy_is_known(entities, front, k);
        assert(more[more.len() - 1].id != more[k].id);
    }
}

/// A one-word mention is matched with an entity of the same agent that it may be
/// short for, whenever the session holds one, and a longer mention never is.
pub proof fn soft_matches_stay_with_the_agent(
    entities: Seq<EntityView>,
    agent: Seq<char>,
    name: Seq<char>,
)
    ensures
        match soft_match(entities, agent, name) {
            Some(e) => {
                &&& entities.contains(e)
                &&& e.agent_id == agent
                &&& extends_name(lowercase_of(e.canonical_name), lowercase_of(name))
                &&& !occurs_in(name, " "@)
            },
            None => occurs_in(name, " "@) || forall|k: int|
                0 <= k < entities.len() ==> !((#[trigger] entities[k]).agent_id == agent
                    && extends_name(
                    lowercase_of(entities[k].canonical_name),
                    lowercase_of(name),
                )),
        },
{
    lemma_first_extending(entities, agent, lowercase_of(name), 0);
}

// --- Linking -----------------------------------------------------------------

impl Rank for EntityView {
    open spec fn rankable(self) -> bool {
        true
    }

    open spec fn ranks_before(self, other: Self) -> bool {
        text_le(self.canonical_name, other.canonical_name)
    }

    proof fn rank_is_total(self, other: Self) {
        text_le_total(self.canonical_name, other.canonical_name);
    }

    proof fn rank_is_transitive(self, mid: Self, other: Self) {
        text_le_transitive(self.canonical_name, mid.canonical_name, other.canonical_name);
    }
}

impl Rank for Entity {
    open spec fn rankable(self) -> bool {
        true
    }

    open spec fn ranks_before(self, other: Self) -> bool {
        text_le(self.canonical_name@, other.canonical_name@)
    }

    proof fn rank_is_total(self, other: Self) {
        text_le_total(self.canonical_name@, other.canonical_name@);
    }

    proof fn rank_is_transitive(self, mid: Self, other: Self) {
        text_le_transitive(self.canonical_name@, mid.canonical_name@, other.canonical_name@);
    }
}

impl Ranked for Entity {
    fn may_precede(&self, other: &Self) -> (r: bool) {
        is_text_le(self.canonical_name.as_str(), other.canonical_name.as_str())
    }
}

/// The entities without those that have the name of the one behind.
pub open spec fn one_per_name(entities: Seq<EntityView>) -> Seq<EntityView>
    decreases entities.len(),
{
    if entities.len() == 0 {
        Seq::empty()
    } else {
        let front = one_per_name(entities.drop_last());
        if front.len() > 0 && front.last().canonical_name == entities.last().canonical_name {
            front.drop_last().push(entities.last())
        } else {
            front.push(entities.last())
        }
    }
}

/// The entities that an episode is linked to, by name, each name once. Of
/// entities with one name the last counts: it is the one that was written last.
pub open spec fn linked_by_name(entities: Seq<EntityView>) -> Seq<EntityView> {
    one_per_name(ranked(entities))
}

/// Sorts entities by name and keeps the last of each name.
pub fn link_by_name(entities: Vec<Entity>) -> (r: Vec<Entity>)
    ensures
        r.deep_view() == linked_by_name(entities.deep_view()),
{
    let ghost given = entities@;
    let sorted = sort_ranked(entities);
    let ghost all = sorted.deep_view();
    proof {
        let f = |e: Entity| e.deep_view();
        ranked_commutes(given, f);
        assert(entities.deep_view() =~= given.map_values(f));
        assert(sorted.deep_view() =~= ranked(given).map_values(f));
    }
    let mut out: Vec<Entity> = Vec::new();
    let mut i: usize = 0;
    assert(out.deep_view() =~= one_per_name(all.take(0)));
    while i < sorted.len()
        invariant
            i <= sorted@.len(),
            all == sorted.deep_view(),
            out.deep_view() == one_per_name(all.take(i as int)),
        decreases sorted@.len() - i,
    {
        let ghost before = out.deep_view();
        assert(all.take(i + 1).drop_last() == all.take(i as int));
        assert(all.take(i + 1).last() == sorted@[i as int].deep_view());
        let n: usize = out.len();
        let repeated = n > 0 && same_text(
            out[n - 1].canonical_name.as_str(),
            sorted[i].canonical_name.as_str(),
        );
        assert(n > 0 ==> before.last() == out@[n - 1].deep_view());
        let e = sorted[i].copy();
        if repeated {
            out.pop();
            assert(out.deep_view() =~= before.drop_last());
        }
        let ghost kept = out.deep_view();
        out.push(e);
        assert(out.deep_view() =~= kept.push(all[i as int]));
        i = i + 1;
    }
    assert(all.take(i as int) == all);
    out
}

/// The names are in ascending order, and each occurs once.
pub open spec fn names_ascend(entities: Seq<EntityView>) -> bool {
    forall|i: int, j: int|
        0 <= i < j < entities.len() ==> text_le(
            (#[trigger] entities[i]).canonical_name,
            (#[trigger] entities[j]).canonical_name,
        ) && entities[i].canonical_name != entities[j].canonical_name
}

/// One of the entities has that name.
pub open spec fn has_name(entities: Seq<EntityView>, name: Seq<char>) -> bool {
    exists|i: int| 0 <= i < entities.len() && (#[trigger] entities[i]).canonical_name == name
}

proof fn lemma_one_per_name(s: Seq<EntityView>)
    requires
        in_rank_order(s),
    ensures
        names_ascend(one_per_name(s)),
        s.len() > 0 ==> one_per_name(s).len() > 0 && one_per_name(s).last().canonical_name
            == s.last().canonical_name,
        forall|i: int|
            0 <= i < s.len() ==> has_name(one_per_name(s), (#[trigger] s[i]).canonical_name),
        forall|e: EntityView| #[trigger] one_per_name(s).contains(e) ==> s.contains(e),
    decreases s.len(),
{
    if s.len() > 0 {
        let before = s.drop_last();
        let last = s.last();
        assert(s == before.push(last));
        assert(in_rank_order(before));
        lemma_one_per_name(before);
        let front = one_per_name(before);
        let all = one_per_name(s);
        let fresh = !(front.len() > 0 && front.last().canonical_name == last.canonical_name);
        if fresh {
            assert(all == front.push(last));
        } else {
            assert(all == front.drop_last().push(last));
        }
        assert forall|i: int| 0 <= i < s.len() implies has_name(
            all,
            (#[trigger] s[i]).canonical_name,
        ) by {
            if i < before.len() {
                assert(before[i] == s[i]);
                let k = choose|k: int|
                    0 <= k < front.len() && (#[trigger] front[k]).canonical_name
                        == before[i].canonical_name;
                assert(all[k].canonical_name == front[k].canonical_name);
            } else {
                assert(all[all.len() - 1].canonical_name == last.canonical_name);
            }
        }
        assert forall|e: EntityView| #[trigger] all.contains(e) implies s.contains(e) by {
            let k = choose|k: int| 0 <= k < all.len() && all[k] == e;
            if k < all.len() - 1 {
                assert(front[k] == e);
                assert(front.contains(e));
                assert(before.contains(e));
                let j = choose|j: int| 0 <= j < before.len() && before[j] == e;
                assert(s[j] == e);
            } else {
                assert(s[s.len() - 1] == e);
            }
        }
        if !fresh {
            assert forall|i: int, j: int| 0 <= i < j < all.len() implies text_le(
                (#[trigger] all[i]).canonical_name,
                (#[trigger] all[j]).canonical_name,
            ) && all[i].canonical_name != all[j].canonical_name by {
                assert(all[i].canonical_name == front[i].canonical_name);
                assert(all[j].canonical_name == front[j].canonical_name);
                assert(front[i].canonical_name != front[j].canonical_name);
            }
        }
        if fresh && front.len() > 0 {
            assert(before.len() > 0);
            assert(s[s.len() - 2].ranks_before(s[s.len() - 1]));
            assert(before.last() == s[s.len() - 2]);
            assert forall|i: int, j: int| 0 <= i < j < all.len() implies text_le(
                (#[trigger] all[i]).canonical_name,
                (#[trigger] all[j]).canonical_name,
            ) && all[i].canonical_name != all[j].canonical_name by {
                if j < front.len() {
                    assert(front[i].canonical_name != front[j].canonical_name);
                } else {
                    let top = front[front.len() - 1];
                    if i < front.len() - 1 {
                        assert(text_le(front[i].canonical_name, top.canonical_name));
                        text_le_transitive(
                            front[i].canonical_name,
                            top.canonical_name,
                            last.canonical_name,
                        );
                        if front[i].canonical_name == last.canonical_name {
                            text_le_antisymmetric(top.canonical_name, last.canonical_name);
                        }
                    }
                }
            }
        }
    }
}

/// The entities that an episode is linked to stand in the order of their names,
/// each name once; no name is lost, and each of them is one of the given ones.
pub proof fn links_are_distinct(entities: Seq<EntityView>)
    ensures
        names_ascend(linked_by_name(entities)),
        forall|i: int|
            0 <= i < entities.len() ==> has_name(
                linked_by_name(entities),
                (#[trigger] entities[i]).canonical_name,
            ),
        forall|e: EntityView| #[trigger]
            linked_by_name(entities).contains(e) ==> entities.contains(e),
{
    ranked_is_a_sorted_permutation(entities);
    lemma_one_per_name(ranked(entities));
    assert forall|i: int| 0 <= i < entities.len() implies has_name(
        linked_by_name(entities),
        (#[trigger] entities[i]).canonical_name,
    ) by {
        assert(entities.contains(entities[i]));
        ranked_keeps_membership(entities, entities[i]);
        let k = choose|k: int| 0 <= k < ranked(entities).len() && ranked(entities)[k] == entities[i];
        assert(has_name(linked_by_name(entities), ranked(entities)[k].canonical_name));
    }
    assert forall|e: EntityView| #[trigger] linked_by_name(entities).contains(e) implies entities
        .contains(e) by {
        ranked_keeps_membership(entities, e);
    }
}

/// The last of the entities that has a name.
pub open spec fn last_of_name(entities: Seq<EntityView>, name: Seq<char>) -> Option<EntityView>
    decreases entities.len(),
{
    if entities.len() == 0 {
        None
    } else if entities.last().canonical_name == name {
        Some(entities.last())
    } else {
        last_of_name(entities.drop_last(), name)
    }
}

proof fn lemma_last_of_name_is_in(s: Seq<EntityView>, name: Seq<char>)
    ensures
        match last_of_name(s, name) {
            Some(e) => s.contains(e) && e.canonical_name == name,
            None => !has_name(s, name),
        },
    decreases s.len(),
{
    if s.len() > 0 {
        let before = s.drop_last();
        lemma_last_of_name_is_in(before, name);
        if s.last().canonical_name == name {
            assert(s[s.len() - 1] == s.last());
        } else if let Some(e) = last_of_name(before, name) {
            let j = choose|j: int| 0 <= j < before.len() && before[j] == e;
            assert(s[j] == e);
        } else {
            assert forall|i: int| 0 <= i < s.len() implies (#[trigger] s[i]).canonical_name
                != name by {
                if i < before.len() {
                    assert(before[i].canonical_name != name);
                }
            }
        }
    }
}

proof fn lemma_insert_keeps_last(s: Seq<EntityView>, x: EntityView, name: Seq<char>)
    ensures
        last_of_name(ranked_insert(s, x), name) == last_of_name(s.push(x), name),
    decreases s.len(),
{
    assert(s.push(x).drop_last() == s);
    if s.len() > 0 && !s.last().ranks_before(x) {
        let shorter = ranked_insert(s.drop_last(), x);
        lemma_insert_keeps_last(s.drop_last(), x, name);
        assert(ranked_insert(s, x) == shorter.push(s.last()));
        assert(shorter.push(s.last()).drop_last() == shorter);
        assert(s.drop_last().push(x).drop_last() == s.drop_last());
        assert(last_of_name(s.push(x), name) == (if x.canonical_name == name {
            Some(x)
        } else {
            last_of_name(s, name)
        }));
        if s.last().canonical_name == x.canonical_name {
            text_le_total(x.canonical_name, x.canonical_name);
        }
    }
}

proof fn lemma_ranked_keeps_last(s: Seq<EntityView>, name: Seq<char>)
    ensures
        last_of_name(ranked(s), name) == last_of_name(s, name),
    decreases s.len(),
{
    if s.len() > 0 {
        let front = ranked(s.drop_last());
        lemma_ranked_keeps_last(s.drop_last(), name);
        lemma_insert_keeps_last(front, s.last(), name);
        assert(front.push(s.last()).drop_last() == front);
    }
}

proof fn lemma_one_per_name_keeps_last(s: Seq<EntityView>, name: Seq<char>)
    ensures
        last_of_name(one_per_name(s), name) == last_of_name(s, name),
    decreases s.len(),
{
    if s.len() > 0 {
        let front = one_per_name(s.drop_last());
        let kept = if front.len() > 0 && front.last().canonical_name == s.last().canonical_name {
            front.drop_last()
        } else {
            front
        };
        lemma_one_per_name_keeps_last(s.drop_last(), name);
        assert(one_per_name(s) == kept.push(s.last()));
        assert(kept.push(s.last()).drop_last() == kept);
    }
}

/// An episode is linked to the copy of each entity that was written last, so
/// that nothing that a later mention added is lost.
pub proof fn the_last_copy_is_linked(entities: Seq<EntityView>)
    ensures
        forall|e: EntityView| #[trigger]
            linked_by_name(entities).contains(e) <==> last_of_name(entities, e.canonical_name)
                == Some(e),
{
    links_are_distinct(entities);
    let links = linked_by_name(entities);
    assert forall|e: EntityView| #[trigger] links.contains(e) <==> last_of_name(
        entities,
        e.canonical_name,
    ) == Some(e) by {
        let name = e.canonical_name;
        lemma_ranked_keeps_last(entities, name);
        lemma_one_per_name_keeps_last(ranked(entities), name);
        lemma_last_of_name_is_in(links, name);
        if links.contains(e) {
            let i = choose|i: int| 0 <= i < links.len() && links[i] == e;
            assert(has_name(links, name));
            let last = last_of_name(links, name)->0;
            let j = choose|j: int| 0 <= j < links.len() && links[j] == last;
            if i < j {
                assert(links[i].canonical_name != links[j].canonical_name);
            }
            if j < i {
                assert(links[j].canonical_name != links[i].canonical_name);
            }
        }
    }
}

// --- What the rules come to --------------------------------------------------

/// What merging does: it adds the mention's words behind the aliases, where they
/// are not among them; it takes the stronger of the two tiers; and it changes
/// nothing else.
pub proof fn merging_changes_aliases_and_tier_only(found: EntityView, m: MentionView)
    ensures
        ({
            let out = merged_entity(found, m);
            &&& found.aliases.contains(m.surface) ==> out.aliases == found.aliases
            &&& !found.aliases.contains(m.surface) ==> out.aliases == found.aliases.push(m.surface)
            &&& m.source_tier.number_spec() < found.confidence_tier.number_spec()
                ==> out.confidence_tier == m.source_tier
            &&& m.source_tier.number_spec() >= found.confidence_tier.number_spec()
                ==> out.confidence_tier == found.confidence_tier
            &&& out == EntityView {
                aliases: out.aliases,
                confidence_tier: out.confidence_tier,
                ..found
            }
        }),
{
}

/// Merging many mentions is merging the explicit ones, one after the other.
pub proof fn merging_many_is_merging_each(found: EntityView, mentions: Seq<MentionView>, i: int)
    requires
        0 <= i <= mentions.len(),
    ensures
        i == mentions.len() ==> merged_with_all(found, mentions, i) == found,
        i < mentions.len() && mentions[i].reference_kind == ReferenceKind::Explicit
            ==> merged_with_all(found, mentions, i) == merged_with_all(
            merged_entity(found, mentions[i]),
            mentions,
            i + 1,
        ),
        i < mentions.len() && mentions[i].reference_kind != ReferenceKind::Explicit
            ==> merged_with_all(found, mentions, i) == merged_with_all(found, mentions, i + 1),
{
}

/// A name may be short for another exactly where the other is made of it, a
/// space, and something more or nothing.
pub proof fn a_full_name_goes_on_behind_a_space(full: Seq<char>, short: Seq<char>)
    ensures
        extends_name(full, short) <==> exists|rest: Seq<char>|
            full == #[trigger] (short + seq![' '] + rest),
{
    let n = short.len() as int;
    if extends_name(full, short) {
        assert(full =~= full.take(n) + seq![' '] + full.skip(n + 1));
    }
    if exists|rest: Seq<char>| full == #[trigger] (short + seq![' '] + rest) {
        let rest = choose|rest: Seq<char>| full == #[trigger] (short + seq![' '] + rest);
        assert(full.take(n) =~= short);
    }
}

/// The entity is of the agent and its name may be what the short name is short
/// for.
pub open spec fn may_be_meant(e: EntityView, agent: Seq<char>, short: Seq<char>) -> bool {
    e.agent_id == agent && extends_name(lowercase_of(e.canonical_name), short)
}

proof fn lemma_first_of_all(
    entities: Seq<EntityView>,
    agent: Seq<char>,
    short: Seq<char>,
    i: int,
) -> (k: int)
    requires
        0 <= i,
    ensures
        first_extending(entities, agent, short, i) is Some ==> {
            &&& i <= k < entities.len()
            &&& first_extending(entities, agent, short, i) == Some(entities[k])
            &&& may_be_meant(entities[k], agent, short)
            &&& forall|j: int| i <= j < k ==> !#[trigger] may_be_meant(entities[j], agent, short)
        },
    decreases entities.len() - i,
{
    if i < entities.len() && !may_be_meant(entities[i], agent, short) {
        lemma_first_of_all(entities, agent, short, i + 1)
    } else {
        i
    }
}

/// Of several entities that a mention may be short for, the one that has been
/// known longest is taken.
pub proof fn the_first_soft_match_is_taken(
    entities: Seq<EntityView>,
    agent: Seq<char>,
    name: Seq<char>,
    k: int,
)
    requires
        !occurs_in(name, " "@),
        0 <= k < entities.len(),
        may_be_meant(entities[k], agent, lowercase_of(name)),
        forall|j: int|
            0 <= j < k ==> !#[trigger] may_be_meant(entities[j], agent, lowercase_of(name)),
    ensures
        soft_match(entities, agent, name) == Some(entities[k]),
{
    let first = lemma_first_of_all(entities, agent, lowercase_of(name), 0);
    lemma_first_extending(entities, agent, lowercase_of(name), 0);
    if first < k {
        assert(!may_be_meant(entities[first], agent, lowercase_of(name)));
    } else if k < first {
        assert(!may_be_meant(entities[k], agent, lowercase_of(name)));
    }
}

/// Recording an entity takes those out that share its id or its name, keeps the
/// others in their order, and puts it last.
pub proof fn recording_keeps_the_order(entities: Seq<EntityView>, e: EntityView)
    ensures
        with_entity(entities, e) == entities.filter(
            |x: EntityView| x.id != e.id && x.canonical_name != e.canonical_name,
        ).push(e),
{
    lemma_without_is_filter(entities, e);
}

proof fn lemma_without_is_filter(entities: Seq<EntityView>, e: EntityView)
    ensures
        without_entity(entities, e) == entities.filter(
            |x: EntityView| x.id != e.id && x.canonical_name != e.canonical_name,
        ),
    decreases entities.len(),
{
    reveal(Seq::filter);
    if entities.len() > 0 {
        lemma_without_is_filter(entities.drop_last(), e);
    } else {
        assert(without_entity(entities, e) =~= entities);
    }
}

/// Recording many entities is recording one after the other.
pub proof fn recording_many_is_recording_each(
    entities: Seq<EntityView>,
    more: Seq<EntityView>,
    e: EntityView,
)
    ensures
        with_entities(entities, Seq::empty()) == entities,
        with_entities(entities, more.push(e)) == with_entity(with_entities(entities, more), e),
{
    assert(more.push(e).drop_last() =~= more);
}

/// The entities of an agent are those that are its own, in their order.
pub proof fn an_agent_has_its_own_entities(entities: Seq<EntityView>, agent: Seq<char>)
    ensures
        entities_of(entities, agent) == entities.filter(|e: EntityView| e.agent_id == agent),
    decreases entities.len(),
{
    reveal(Seq::filter);
    if entities.len() > 0 {
        an_agent_has_its_own_entities(entities.drop_last(), agent);
    } else {
        assert(entities_of(entities, agent) =~= entities);
    }
}

/// The last of the entities with a name: it has the name, and none behind it has.
pub proof fn the_last_of_a_name_comes_last(entities: Seq<EntityView>, name: Seq<char>)
    ensures
        match last_of_name(entities, name) {
            Some(e) => exists|k: int|
                0 <= k < entities.len() && (#[trigger] entities[k]) == e && e.canonical_name == name
                    && forall|j: int|
                    k < j < entities.len() ==> (#[trigger] entities[j]).canonical_name != name,
            None => forall|j: int|
                0 <= j < entities.len() ==> (#[trigger] entities[j]).canonical_name != name,
        },
    decreases entities.len(),
{
    if entities.len() > 0 {
        let front = entities.drop_last();
        the_last_of_a_name_comes_last(front, name);
        if entities.last().canonical_name == name {
            assert(entities[entities.len() - 1] == entities.last());
        } else {
            match last_of_name(front, name) {
                Some(e) => {
                    let k = choose|k: int|
                        0 <= k < front.len() && (#[trigger] front[k]) == e && e.canonical_name
                            == name && forall|j: int|
                            k < j < front.len() ==> (#[trigger] front[j]).canonical_name != name;
                    assert(entities[k] == e);
                    assert forall|j: int| k < j < entities.len() implies (
                    #[trigger] entities[j]).canonical_name != name by {
                        if j < front.len() {
                            assert(front[j] == entities[j]);
                        }
                    }
                },
                None => {
                    assert forall|j: int| 0 <= j < entities.len() implies (
                    #[trigger] entities[j]).canonical_name != name by {
                        if j < front.len() {
                            assert(front[j] == entities[j]);
                        }
                    }
                },
            }
        }
    }
}

} // verus!

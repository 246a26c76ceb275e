//! Walking the relation graph, breadth first.
//!
//! The walk is a state machine: it names the edges to query next, the adapter
//! fetches them, and the walk decides how to go on.
use vstd::prelude::*;
use crate::storage::record::{
    id_text, GraphResult, GraphResultView, KeyView, RecordId, RecordIdView,
};
use crate::text::{chars_of, clone_texts, same_text, text_of};

verus! {

/// What a graph walk is restricted to.
#[derive(Debug, Clone)]
#[non_exhaustive]
pub struct GraphFilters {
    /// The agent whose graph is walked; empty for no restriction.
    pub agent_id: String,
    /// The relations to follow; empty for all known relations.
    pub relations: Vec<String>,
    /// How many edges to return at most; the walk itself is not cut short.
    pub max_edges: Option<u32>,
}

impl Default for GraphFilters {
    /// No restriction.
    fn default() -> (r: Self)
        ensures
            r.agent_id@ == Seq::<char>::empty(),
            r.relations@ == Seq::<String>::empty(),
            r.max_edges is None,
    {
        GraphFilters { agent_id: String::new(), relations: Vec::new(), max_edges: None }
    }
}

impl GraphFilters {
    /// No restriction.
    pub fn any() -> (r: Self)
        ensures
            r.agent_id@ == Seq::<char>::empty(),
            r.relations@ == Seq::<String>::empty(),
            r.max_edges is None,
    {
        GraphFilters { agent_id: String::new(), relations: Vec::new(), max_edges: None }
    }

    /// The graph of one agent.
    pub fn for_agent(agent_id: &str) -> (r: Self)
        ensures
            r.agent_id@ == agent_id@,
            r.relations@ == Seq::<String>::empty(),
            r.max_edges is None,
    {
        GraphFilters { agent_id: agent_id.to_owned(), relations: Vec::new(), max_edges: None }
    }

    /// Certain relations only.
    pub fn relations(rs: &[&str]) -> (r: Self)
        ensures
            r.agent_id@ == Seq::<char>::empty(),
            r.relations@.len() == rs@.len(),
            forall|i: int| 0 <= i < rs@.len() ==> (#[trigger] r.relations@[i])@ == rs@[i]@,
            r.max_edges is None,
    {
        let mut relations: Vec<String> = Vec::new();
        let mut i: usize = 0;
        while i < rs.len()
            invariant
                i <= rs@.len(),
                relations@.len() == i,
                forall|k: int| 0 <= k < i ==> (#[trigger] relations@[k])@ == rs@[k]@,
            decreases rs@.len() - i,
        {
            relations.push(rs[i].to_owned());
            i = i + 1;
        }
        GraphFilters { agent_id: String::new(), relations, max_edges: None }
    }

    /// The same filter with a cap on the number of edges.
    pub fn with_max_edges(self, max_edges: u32) -> (r: Self)
        ensures
            r.agent_id == self.agent_id,
            r.relations == self.relations,
            r.max_edges == Some(max_edges),
    {
        GraphFilters {
            agent_id: self.agent_id,
            relations: self.relations,
            max_edges: Some(max_edges),
        }
    }

    /// The relations that the walk follows.
    pub open spec fn tables(self) -> Seq<Seq<char>> {
        if self.relations@.len() == 0 {
            known_relations()
        } else {
            self.relations.deep_view()
        }
    }

    /// The relations that the walk follows.
    pub fn followed(&self) -> (r: Vec<String>)
        ensures
            r.deep_view() == self.tables(),
            r@.len() > 0,
    {
        if self.relations.len() == 0 {
            let r = vec![
                "episode_relates_to_concept".to_owned(),
                "episode_precedes_episode".to_owned(),
                "episode_mentions_entity".to_owned(),
                "concept_connects_to_concept".to_owned(),
                "concept_about_entity".to_owned(),
                "entity_relates_to_entity".to_owned(),
                "episode_triggered_task".to_owned(),
            ];
            assert(r.deep_view() =~= known_relations());
            r
        } else {
            clone_texts(&self.relations)
        }
    }
}

/// The relations of the schema.
pub open spec fn known_relations() -> Seq<Seq<char>> {
    seq![
        "episode_relates_to_concept"@,
        "episode_precedes_episode"@,
        "episode_mentions_entity"@,
        "concept_connects_to_concept"@,
        "concept_about_entity"@,
        "entity_relates_to_entity"@,
        "episode_triggered_task"@,
    ]
}

// --- Edges -------------------------------------------------------------------

/// One end of an edge, as the database returned it.
#[derive(Debug)]
pub enum EdgeEnd {
    Record(RecordId),
    Text(String),
    /// Anything that does not name a node.
    Unknown,
}

/// A row of an edge query.
#[derive(Debug)]
pub struct EdgeRow {
    pub source: EdgeEnd,
    pub target: EdgeEnd,
    /// The agent that the source belongs to, where that was asked for.
    pub source_agent: Option<String>,
    /// The agent that the target belongs to, where that was asked for.
    pub target_agent: Option<String>,
}

/// An edge of the graph.
pub struct EdgeView {
    pub from: Seq<char>,
    pub relation: Seq<char>,
    pub to: Seq<char>,
}

/// The node at an end of an edge.
pub open spec fn end_node(end: EdgeEnd) -> Option<Seq<char>> {
    match end {
        EdgeEnd::Record(id) => Some(id_text(id.deep_view())),
        EdgeEnd::Text(s) => Some(s@),
        EdgeEnd::Unknown => None,
    }
}

/// A walk for `agent` may follow the edge of a row: both of its ends belong to
/// that agent, or the walk is for no agent in particular.
pub open spec fn admitted(row: EdgeRow, agent: Seq<char>) -> bool {
    agent.len() == 0 || (row.source_agent.deep_view() == Some(agent)
        && row.target_agent.deep_view() == Some(agent))
}

/// The edge of a row, where both ends name a node and the walk may follow it.
pub open spec fn row_edge(row: EdgeRow, relation: Seq<char>, agent: Seq<char>) -> Option<EdgeView> {
    match (end_node(row.source), end_node(row.target)) {
        (Some(from), Some(to)) if admitted(row, agent) => Some(EdgeView { from, relation, to }),
        _ => None,
    }
}

/// `set` with `x` in it.
pub open spec fn with_node(set: Seq<Seq<char>>, x: Seq<char>) -> Seq<Seq<char>> {
    if set.contains(x) {
        set
    } else {
        set.push(x)
    }
}

/// The position of the first colon at or after `i`, or the end.
pub open spec fn colon_at(s: Seq<char>, i: int) -> int
    decreases s.len() - i,
{
    if 0 <= i < s.len() && s[i] != ':' {
        colon_at(s, i + 1)
    } else {
        i
    }
}

/// The node names a table and a key, so that its edges can be queried.
pub open spec fn queryable(node: Seq<char>) -> bool {
    colon_at(node, 0) < node.len()
}

/// The record that a node stands for: the table before the first colon, and the
/// key behind it.
pub open spec fn node_record(node: Seq<char>) -> RecordIdView {
    RecordIdView {
        table: node.take(colon_at(node, 0)),
        key: KeyView::Text(node.skip(colon_at(node, 0) + 1)),
    }
}

/// The records of the queryable nodes among `nodes`.
pub open spec fn node_records(nodes: Seq<Seq<char>>) -> Seq<RecordIdView>
    decreases nodes.len(),
{
    if nodes.len() == 0 {
        Seq::empty()
    } else {
        let front = node_records(nodes.drop_last());
        if queryable(nodes.last()) {
            front.push(node_record(nodes.last()))
        } else {
            front
        }
    }
}

// --- The walk ----------------------------------------------------------------

/// What a walk is to do next.
pub enum StepView {
    CheckAgent { start: Seq<char> },
    Query { statement: Seq<char>, frontier: Seq<RecordIdView> },
    Finish(Seq<GraphResultView>),
}

/// What the adapter is to do next.
#[derive(Debug)]
pub enum GraphStep {
    /// Read the agent of the start node.
    CheckAgent { start: String },
    /// Fetch the edges that leave the frontier.
    Query { statement: String, frontier: Vec<RecordId> },
    /// The walk is over.
    Finish(Vec<GraphResult>),
}

impl DeepView for GraphStep {
    type V = StepView;

    open spec fn deep_view(&self) -> StepView {
        match self {
            GraphStep::CheckAgent { start } => StepView::CheckAgent { start: start@ },
            GraphStep::Query { statement, frontier } => StepView::Query {
                statement: statement@,
                frontier: frontier.deep_view(),
            },
            GraphStep::Finish(results) => StepView::Finish(results.deep_view()),
        }
    }
}

/// What a [`GraphWalk`] holds.
pub struct WalkView {
    /// The agent whose graph is walked; empty for any.
    pub agent_id: Seq<char>,
    /// The relations to follow, at least one.
    pub tables: Seq<Seq<char>>,
    /// The relation that is queried next.
    pub table: int,
    /// How many rounds are left, the current one among them.
    pub rounds: int,
    /// The nodes whose edges this round looks for.
    pub frontier: Seq<Seq<char>>,
    /// The nodes that this round found new edges to.
    pub next: Seq<Seq<char>>,
    /// The edges found so far, in the order in which they were found.
    pub found: Seq<EdgeView>,
    /// The cap on the result.
    pub max_edges: Option<u32>,
}

/// The edges of one query, added to what was found; an edge that is known adds
/// nothing, and neither does one that leaves the agent's graph.
pub open spec fn absorbed(
    found: Seq<EdgeView>,
    next: Seq<Seq<char>>,
    relation: Seq<char>,
    agent: Seq<char>,
    rows: Seq<EdgeRow>,
) -> (Seq<EdgeView>, Seq<Seq<char>>)
    decreases rows.len(),
{
    if rows.len() == 0 {
        (found, next)
    } else {
        let (f, n) = absorbed(found, next, relation, agent, rows.drop_last());
        match row_edge(rows.last(), relation, agent) {
            Some(e) if !f.contains(e) => (f.push(e), with_node(n, e.to)),
            _ => (f, n),
        }
    }
}

/// The result row of an edge.
pub open spec fn result_row(e: EdgeView) -> GraphResultView {
    GraphResultView { from: e.from, relation: e.relation, to: e.to, attributes: "{}"@ }
}

/// The first edges up to the cap.
pub open spec fn capped(found: Seq<EdgeView>, max_edges: Option<u32>) -> Seq<EdgeView> {
    match max_edges {
        Some(max) if max < found.len() => found.take(max as int),
        _ => found,
    }
}

impl WalkView {
    /// The walk is in the middle of a round.
    pub open spec fn wf(self) -> bool {
        &&& self.tables.len() > 0
        &&& 0 <= self.table < self.tables.len()
        &&& self.rounds >= 1
    }

    /// What the walk returns.
    pub open spec fn results(self) -> Seq<GraphResultView> {
        capped(self.found, self.max_edges).map_values(|e: EdgeView| result_row(e))
    }

    /// What a query selects: the ends of each edge, and the agents of both where
    /// the walk is for one agent.
    pub open spec fn selection(self) -> Seq<char> {
        if self.agent_id.len() == 0 {
            "SELECT in, out FROM "@
        } else {
            "SELECT in, out, in.agent_id AS in_agent, out.agent_id AS out_agent FROM "@
        }
    }

    /// The query for the current relation.
    pub open spec fn query(self) -> StepView {
        StepView::Query {
            statement: self.selection() + self.tables[self.table] + " WHERE in IN $frontier"@,
            frontier: node_records(self.frontier),
        }
    }

    /// The walk from `start`.
    pub open spec fn begin(start: Seq<char>, depth: u32, filters: GraphFilters) -> WalkView {
        WalkView {
            agent_id: filters.agent_id@,
            tables: filters.tables(),
            table: 0,
            rounds: depth as int,
            frontier: seq![start],
            next: Seq::empty(),
            found: Seq::empty(),
            max_edges: filters.max_edges,
        }
    }

    /// The first step of a walk.
    pub open spec fn first_step(self) -> StepView {
        if self.rounds == 0 {
            StepView::Finish(Seq::empty())
        } else if self.agent_id.len() > 0 {
            StepView::CheckAgent { start: self.frontier[0] }
        } else {
            self.query()
        }
    }

    /// The step after the agent of the start node was read: a walk does not
    /// enter the graph of another agent.
    pub open spec fn on_agent(self, agent: Option<Seq<char>>) -> StepView {
        if agent == Some(self.agent_id) {
            self.query()
        } else {
            StepView::Finish(Seq::empty())
        }
    }

    /// The walk after the rows of the current relation were read.
    pub open spec fn absorb(self, rows: Seq<EdgeRow>) -> WalkView {
        let (found, next) = absorbed(
            self.found,
            self.next,
            self.tables[self.table],
            self.agent_id,
            rows,
        );
        WalkView { found, next, table: self.table + 1, ..self }
    }

    /// The walk after its round was closed: the nodes that the round reached are
    /// the next frontier.
    pub open spec fn close_round(self) -> WalkView {
        WalkView {
            table: 0,
            rounds: self.rounds - 1,
            frontier: self.next,
            next: Seq::empty(),
            ..self
        }
    }

    /// The walk and its step after the rows of the current relation were read.
    pub open spec fn on_rows(self, rows: Seq<EdgeRow>) -> (WalkView, StepView) {
        let grown = self.absorb(rows);
        if grown.table < grown.tables.len() {
            (grown, grown.query())
        } else {
            let closed = grown.close_round();
            if closed.rounds == 0 || closed.frontier.len() == 0 {
                (closed, StepView::Finish(closed.results()))
            } else {
                (closed, closed.query())
            }
        }
    }
}

// --- What the walk finds -----------------------------------------------------

/// An edge of the graph that the walk can follow.
pub open spec fn follows(graph: spec_fn(EdgeView) -> bool, tables: Seq<Seq<char>>, e: EdgeView) -> bool {
    graph(e) && tables.contains(e.relation) && queryable(e.from)
}

/// `node` can be reached from `start` over at most `hops` edges.
pub open spec fn within(
    graph: spec_fn(EdgeView) -> bool,
    tables: Seq<Seq<char>>,
    start: Seq<char>,
    node: Seq<char>,
    hops: nat,
) -> bool
    decreases hops,
{
    if hops == 0 {
        node == start
    } else {
        within(graph, tables, start, node, (hops - 1) as nat) || exists|e: EdgeView|
            #[trigger] follows(graph, tables, e) && e.to == node && within(
                graph,
                tables,
                start,
                e.from,
                (hops - 1) as nat,
            )
    }
}

/// What can be reached over some edges can be reached over more.
pub proof fn within_grows(
    graph: spec_fn(EdgeView) -> bool,
    tables: Seq<Seq<char>>,
    start: Seq<char>,
    node: Seq<char>,
    few: nat,
    many: nat,
)
    requires
        few <= many,
        within(graph, tables, start, node, few),
    ensures
        within(graph, tables, start, node, many),
    decreases many - few,
{
    if few < many {
        within_grows(graph, tables, start, node, few, (many - 1) as nat);
    }
}

/// The rows are a full answer, for a walk for `agent`, to the query for the edges
/// of `relation` that leave `frontier`: every row that the walk may follow is
/// such an edge, and every such edge has a row.
pub open spec fn answers(
    graph: spec_fn(EdgeView) -> bool,
    relation: Seq<char>,
    agent: Seq<char>,
    frontier: Seq<Seq<char>>,
    rows: Seq<EdgeRow>,
) -> bool {
    &&& forall|i: int|
        0 <= i < rows.len() ==> {
            let edge = row_edge(#[trigger] rows[i], relation, agent);
            edge is Some ==> graph(edge->0) && queryable(edge->0.from) && frontier.contains(
                edge->0.from,
            )
        }
    &&& forall|e: EdgeView|
        #[trigger] graph(e) && e.relation == relation && queryable(e.from) && frontier.contains(
            e.from,
        ) ==> exists|i: int|
            0 <= i < rows.len() && row_edge(#[trigger] rows[i], relation, agent) == Some(e)
}

/// What a walk from `start` has found after `done` full rounds and a part of
/// the next.
pub open spec fn explored(
    walk: WalkView,
    graph: spec_fn(EdgeView) -> bool,
    start: Seq<char>,
    done: nat,
) -> bool {
    let tables = walk.tables;
    // Everything found lies on a walk of the rounds so far.
    &&& forall|i: int|
        0 <= i < walk.found.len() ==> follows(graph, tables, #[trigger] walk.found[i]) && within(
            graph,
            tables,
            start,
            walk.found[i].from,
            done,
        )
    &&& forall|i: int|
        0 <= i < walk.frontier.len() ==> within(
            graph,
            tables,
            start,
            #[trigger] walk.frontier[i],
            done,
        )
    &&& forall|i: int|
        0 <= i < walk.next.len() ==> within(graph, tables, start, #[trigger] walk.next[i], done + 1)
    // Nothing that the full rounds could find is missing.
    &&& done >= 1 ==> forall|e: EdgeView| #[trigger]
        follows(graph, tables, e) && within(graph, tables, start, e.from, (done - 1) as nat)
            ==> walk.found.contains(e)
    // Nor is anything of the relations that this round has queried.
    &&& forall|e: EdgeView| #[trigger]
        follows(graph, tables, e) && walk.frontier.contains(e.from) && tables.take(
            walk.table,
        ).contains(e.relation) ==> walk.found.contains(e)
    // A node at the edge of what was explored is on the frontier.
    &&& forall|x: Seq<char>| #[trigger]
        within(graph, tables, start, x, done) ==> walk.frontier.contains(x) || (done >= 1 && within(
            graph,
            tables,
            start,
            x,
            (done - 1) as nat,
        ))
    // The target of an edge that this round found is reached next.
    &&& forall|i: int|
        0 <= i < walk.found.len() ==> walk.next.contains((#[trigger] walk.found[i]).to) || (done
            >= 1 && within(graph, tables, start, walk.found[i].from, (done - 1) as nat))
    &&& walk.found.no_duplicates()
}

/// A fresh walk has explored nothing but its start.
pub proof fn a_fresh_walk_is_explored(
    start: Seq<char>,
    depth: u32,
    filters: GraphFilters,
    graph: spec_fn(EdgeView) -> bool,
)
    ensures
        explored(WalkView::begin(start, depth, filters), graph, start, 0),
{
    let walk = WalkView::begin(start, depth, filters);
    assert(walk.tables.take(0) =~= Seq::<Seq<char>>::empty());
    assert(walk.frontier[0] == start);
}

proof fn lemma_absorbed(
    walk: WalkView,
    graph: spec_fn(EdgeView) -> bool,
    start: Seq<char>,
    done: nat,
    rows: Seq<EdgeRow>,
)
    requires
        walk.wf(),
        explored(walk, graph, start, done),
        forall|i: int|
            0 <= i < rows.len() ==> {
                let edge = row_edge(#[trigger] rows[i], walk.tables[walk.table], walk.agent_id);
                edge is Some ==> graph(edge->0) && queryable(edge->0.from)
                    && walk.frontier.contains(edge->0.from)
            },
    ensures
        ({
            let (found, next) = absorbed(
                walk.found,
                walk.next,
                walk.tables[walk.table],
                walk.agent_id,
                rows,
            );
            &&& explored(WalkView { found, next, ..walk }, graph, start, done)
            &&& forall|e: EdgeView| walk.found.contains(e) ==> #[trigger] found.contains(e)
            &&& forall|i: int|
                0 <= i < rows.len() && row_edge(
                    #[trigger] rows[i],
                    walk.tables[walk.table],
                    walk.agent_id,
                ) is Some ==> found.contains(row_edge(rows[i], walk.tables[walk.table], walk.agent_id)->0)
        }),
    decreases rows.len(),
{
    if rows.len() > 0 {
        let front = rows.drop_last();
        let relation = walk.tables[walk.table];
        assert forall|i: int| 0 <= i < front.len() implies ({
            let edge = row_edge(#[trigger] front[i], relation, walk.agent_id);
            edge is Some ==> graph(edge->0) && queryable(edge->0.from) && walk.frontier.contains(
                edge->0.from,
            )
        }) by {
            assert(front[i] == rows[i]);
        }
        lemma_absorbed(walk, graph, start, done, front);
        let (f, n) = absorbed(walk.found, walk.next, relation, walk.agent_id, front);
        let (found, next) = absorbed(walk.found, walk.next, relation, walk.agent_id, rows);
        let before = WalkView { found: f, next: n, ..walk };
        let after = WalkView { found, next, ..walk };
        assert(rows[rows.len() - 1] == rows.last());
        match row_edge(rows.last(), relation, walk.agent_id) {
            Some(e) if !f.contains(e) => {
                assert(walk.tables.contains(relation));
                assert(follows(graph, walk.tables, e));
                let k = choose|k: int| 0 <= k < walk.frontier.len() && walk.frontier[k] == e.from;
                assert(within(graph, walk.tables, start, walk.frontier[k], done));
                assert(within(graph, walk.tables, start, e.to, done + 1));
                assert(found == f.push(e));
                assert(forall|x: EdgeView| f.contains(x) ==> #[trigger] found.contains(x)) by {
                    assert forall|x: EdgeView| f.contains(x) implies #[trigger] found.contains(
                        x,
                    ) by {
                        let j = choose|j: int| 0 <= j < f.len() && f[j] == x;
                        assert(found[j] == x);
                    }
                }
                assert(found[f.len() as int] == e);
                assert(found.contains(e));
                assert(forall|x: Seq<char>| n.contains(x) ==> #[trigger] next.contains(x)) by {
                    assert forall|x: Seq<char>| n.contains(x) implies #[trigger] next.contains(
                        x,
                    ) by {
                        let j = choose|j: int| 0 <= j < n.len() && n[j] == x;
                        assert(next[j] == x);
                    }
                }
                assert(next.contains(e.to)) by {
                    if !n.contains(e.to) {
                        assert(next[n.len() as int] == e.to);
                    }
                }
                assert forall|i: int| 0 <= i < found.len() implies follows(
                    graph,
                    walk.tables,
                    #[trigger] found[i],
                ) && within(graph, walk.tables, start, found[i].from, done) by {
                    if i < f.len() {
                        assert(found[i] == f[i]);
                    }
                }
                assert forall|i: int| 0 <= i < next.len() implies within(
                    graph,
                    walk.tables,
                    start,
                    #[trigger] next[i],
                    done + 1,
                ) by {
                    if i < n.len() {
                        assert(next[i] == n[i]);
                    }
                }
                assert forall|i: int| 0 <= i < found.len() implies next.contains(
                    (#[trigger] found[i]).to,
                ) || (done >= 1 && within(
                    graph,
                    walk.tables,
                    start,
                    found[i].from,
                    (done - 1) as nat,
                )) by {
                    if i < f.len() {
                        assert(found[i] == f[i]);
                    }
                }
                assert(found.no_duplicates());
                assert(explored(after, graph, start, done));
                assert forall|i: int|
                    0 <= i < rows.len() && row_edge(
                        #[trigger] rows[i],
                        relation,
                        walk.agent_id,
                    ) is Some implies found.contains(
                    row_edge(rows[i], relation, walk.agent_id)->0,
                ) by {
                    if i < front.len() {
                        assert(front[i] == rows[i]);
                        assert(f.contains(row_edge(front[i], relation, walk.agent_id)->0));
                    }
                }
            },
            _ => {
                assert forall|i: int|
                    0 <= i < rows.len() && row_edge(
                        #[trigger] rows[i],
                        relation,
                        walk.agent_id,
                    ) is Some implies found.contains(
                    row_edge(rows[i], relation, walk.agent_id)->0,
                ) by {
                    if i < front.len() {
                        assert(front[i] == rows[i]);
                    }
                }
            },
        }
    }
}

/// Reading the full answer to a query keeps a walk explored.
pub proof fn absorbing_an_answer_keeps_a_walk_explored(
    walk: WalkView,
    graph: spec_fn(EdgeView) -> bool,
    start: Seq<char>,
    done: nat,
    rows: Seq<EdgeRow>,
)
    requires
        walk.wf(),
        explored(walk, graph, start, done),
        answers(graph, walk.tables[walk.table], walk.agent_id, walk.frontier, rows),
    ensures
        explored(walk.absorb(rows), graph, start, done),
{
    lemma_absorbed(walk, graph, start, done, rows);
    let relation = walk.tables[walk.table];
    let after = walk.absorb(rows);
    let tables = walk.tables;
    assert forall|e: EdgeView| #[trigger]
        follows(graph, tables, e) && walk.frontier.contains(e.from) && tables.take(
            after.table,
        ).contains(e.relation) implies after.found.contains(e) by {
        let k = choose|k: int|
            0 <= k < tables.take(after.table).len() && tables.take(after.table)[k] == e.relation;
        if k < walk.table {
            assert(tables.take(walk.table)[k] == e.relation);
            assert(walk.found.contains(e));
        } else {
            assert(e.relation == relation);
            assert(graph(e));
            let i = choose|i: int|
                0 <= i < rows.len() && row_edge(#[trigger] rows[i], relation, walk.agent_id) == Some(e);
            assert(row_edge(rows[i], relation, walk.agent_id) is Some);
        }
    }
}

/// Closing a round in which every relation was queried completes it.
pub proof fn closing_a_round_keeps_a_walk_explored(
    walk: WalkView,
    graph: spec_fn(EdgeView) -> bool,
    start: Seq<char>,
    done: nat,
)
    requires
        walk.table == walk.tables.len(),
        explored(walk, graph, start, done),
    ensures
        explored(walk.close_round(), graph, start, done + 1),
{
    let tables = walk.tables;
    let after = walk.close_round();
    assert(tables.take(walk.table) =~= tables);
    assert(tables.take(0) =~= Seq::<Seq<char>>::empty());
    assert forall|i: int| 0 <= i < after.found.len() implies follows(
        graph,
        tables,
        #[trigger] after.found[i],
    ) && within(graph, tables, start, after.found[i].from, done + 1) by {
        within_grows(graph, tables, start, walk.found[i].from, done, done + 1);
    }
    assert forall|e: EdgeView| #[trigger]
        follows(graph, tables, e) && within(
        graph,
        tables,
        start,
        e.from,
        done,
    ) implies after.found.contains(e) by {
        if !walk.frontier.contains(e.from) {
            assert(walk.found.contains(e));
        }
    }
    assert forall|x: Seq<char>| #[trigger]
        within(graph, tables, start, x, done + 1) implies after.frontier.contains(x) || within(
        graph,
        tables,
        start,
        x,
        done,
    ) by {
        if !within(graph, tables, start, x, done) {
            let e = choose|e: EdgeView| #[trigger]
                follows(graph, tables, e) && e.to == x && within(graph, tables, start, e.from, done);
            assert(walk.found.contains(e));
            let i = choose|i: int| 0 <= i < walk.found.len() && walk.found[i] == e;
            if !walk.next.contains(walk.found[i].to) {
                assert(within(graph, tables, start, e.from, (done - 1) as nat));
                assert(within(graph, tables, start, x, done));
            }
        }
    }
}

/// With an empty frontier nothing further can be reached.
proof fn lemma_exhausted(
    walk: WalkView,
    graph: spec_fn(EdgeView) -> bool,
    start: Seq<char>,
    done: nat,
    x: Seq<char>,
    hops: nat,
)
    requires
        done >= 1,
        walk.frontier.len() == 0,
        explored(walk, graph, start, done),
        within(graph, walk.tables, start, x, hops),
    ensures
        within(graph, walk.tables, start, x, (done - 1) as nat),
    decreases hops,
{
    let tables = walk.tables;
    if hops == 0 {
        assert(within(graph, tables, start, start, 0));
        within_grows(graph, tables, start, start, 0, (done - 1) as nat);
    } else if within(graph, tables, start, x, (hops - 1) as nat) {
        lemma_exhausted(walk, graph, start, done, x, (hops - 1) as nat);
    } else {
        let e = choose|e: EdgeView| #[trigger]
            follows(graph, tables, e) && e.to == x && within(
                graph,
                tables,
                start,
                e.from,
                (hops - 1) as nat,
            );
        lemma_exhausted(walk, graph, start, done, e.from, (hops - 1) as nat);
        assert(within(graph, tables, start, x, done));
        assert(!walk.frontier.contains(x));
    }
}

/// A walk of `depth` rounds that was always answered in full ends with exactly
/// the edges that leave a node within `depth - 1` hops of the start, that is,
/// the edges on walks of up to `depth` hops, each of them once.
pub proof fn a_finished_walk_found_every_edge_in_reach(
    walk: WalkView,
    graph: spec_fn(EdgeView) -> bool,
    start: Seq<char>,
    depth: nat,
    done: nat,
    e: EdgeView,
)
    requires
        1 <= done <= depth,
        walk.table == 0,
        walk.next.len() == 0,
        explored(walk, graph, start, done),
        done == depth || walk.frontier.len() == 0,
    ensures
        walk.found.contains(e) <==> follows(graph, walk.tables, e) && within(
            graph,
            walk.tables,
            start,
            e.from,
            (depth - 1) as nat,
        ),
        walk.found.no_duplicates(),
{
    let tables = walk.tables;
    if walk.found.contains(e) {
        let i = choose|i: int| 0 <= i < walk.found.len() && walk.found[i] == e;
        assert(follows(graph, tables, walk.found[i]));
        assert(!walk.next.contains(walk.found[i].to));
        within_grows(graph, tables, start, e.from, (done - 1) as nat, (depth - 1) as nat);
    }
    if follows(graph, tables, e) && within(graph, tables, start, e.from, (depth - 1) as nat) {
        if done < depth {
            lemma_exhausted(walk, graph, start, done, e.from, (depth - 1) as nat);
        }
    }
}

/// A walk of no rounds finds nothing, and so does a walk whose start node
/// belongs to another agent.
pub proof fn a_refused_walk_is_empty(walk: WalkView, agent: Option<Seq<char>>)
    ensures
        walk.rounds == 0 ==> walk.first_step() == StepView::Finish(Seq::empty()),
        agent != Some(walk.agent_id) ==> walk.on_agent(agent) == StepView::Finish(Seq::empty()),
{
}

/// The cap cuts the list of edges off at its end and changes nothing else.
pub proof fn the_cap_only_cuts_off(found: Seq<EdgeView>, max: u32)
    ensures
        capped(found, Some(max)).len() == if max < found.len() {
            max as nat
        } else {
            found.len()
        },
        capped(found, Some(max)).is_prefix_of(found),
        capped(found, None) == found,
{
}

// --- The graph of an agent ---------------------------------------------------

/// The edges of a graph that join two nodes of `agent`; all of them where no
/// agent is named.
pub open spec fn agent_graph(
    graph: spec_fn(EdgeView) -> bool,
    owner: spec_fn(Seq<char>) -> Option<Seq<char>>,
    agent: Seq<char>,
) -> spec_fn(EdgeView) -> bool {
    |e: EdgeView|
        graph(e) && (agent.len() == 0 || (owner(e.from) == Some(agent) && owner(e.to) == Some(
            agent,
        )))
}

/// The rows name the agents of the nodes rightly.
pub open spec fn names_agents(
    owner: spec_fn(Seq<char>) -> Option<Seq<char>>,
    rows: Seq<EdgeRow>,
) -> bool {
    forall|i: int|
        0 <= i < rows.len() ==> {
            let row = #[trigger] rows[i];
            &&& end_node(row.source) matches Some(x) ==> row.source_agent.deep_view() == owner(x)
            &&& end_node(row.target) matches Some(x) ==> row.target_agent.deep_view() == owner(x)
        }
}

/// Every edge joins two nodes of `agent`.
pub open spec fn owned(
    owner: spec_fn(Seq<char>) -> Option<Seq<char>>,
    agent: Seq<char>,
    found: Seq<EdgeView>,
) -> bool {
    forall|i: int|
        0 <= i < found.len() ==> owner((#[trigger] found[i]).from) == Some(agent) && owner(
            found[i].to,
        ) == Some(agent)
}

proof fn lemma_absorbed_is_owned(
    found: Seq<EdgeView>,
    next: Seq<Seq<char>>,
    relation: Seq<char>,
    agent: Seq<char>,
    rows: Seq<EdgeRow>,
    owner: spec_fn(Seq<char>) -> Option<Seq<char>>,
)
    requires
        agent.len() > 0,
        names_agents(owner, rows),
        owned(owner, agent, found),
    ensures
        owned(owner, agent, absorbed(found, next, relation, agent, rows).0),
    decreases rows.len(),
{
    if rows.len() > 0 {
        let front = rows.drop_last();
        assert(names_agents(owner, front)) by {
            assert forall|i: int| 0 <= i < front.len() implies ({
                let row = #[trigger] front[i];
                &&& end_node(row.source) matches Some(x) ==> row.source_agent.deep_view() == owner(
                    x,
                )
                &&& end_node(row.target) matches Some(x) ==> row.target_agent.deep_view() == owner(
                    x,
                )
            }) by {
                assert(front[i] == rows[i]);
            }
        }
        lemma_absorbed_is_owned(found, next, relation, agent, front, owner);
        assert(rows[rows.len() - 1] == rows.last());
    }
}

/// A walk for an agent never leaves that agent's graph: whatever the rows are, as
/// long as they name the agents of the nodes rightly, every edge that is found,
/// and every edge that is returned, joins two nodes of the agent.
pub proof fn a_walk_stays_with_its_agent(
    walk: WalkView,
    rows: Seq<EdgeRow>,
    owner: spec_fn(Seq<char>) -> Option<Seq<char>>,
)
    requires
        walk.agent_id.len() > 0,
        names_agents(owner, rows),
        owned(owner, walk.agent_id, walk.found),
    ensures
        owned(owner, walk.agent_id, walk.on_rows(rows).0.found),
        walk.on_rows(rows).0.agent_id == walk.agent_id,
        match walk.on_rows(rows).1 {
            StepView::Finish(results) => forall|i: int|
                0 <= i < results.len() ==> owner((#[trigger] results[i]).from) == Some(
                    walk.agent_id,
                ) && owner(results[i].to) == Some(walk.agent_id),
            _ => true,
        },
{
    lemma_absorbed_is_owned(
        walk.found,
        walk.next,
        walk.tables[walk.table],
        walk.agent_id,
        rows,
        owner,
    );
    let after = walk.on_rows(rows).0;
    if let StepView::Finish(results) = walk.on_rows(rows).1 {
        let kept = capped(after.found, after.max_edges);
        assert forall|i: int| 0 <= i < results.len() implies owner((#[trigger] results[i]).from)
            == Some(walk.agent_id) && owner(results[i].to) == Some(walk.agent_id) by {
            assert(kept[i] == after.found[i]);
            assert(results[i] == result_row(kept[i]));
        }
    }
}

/// The rows are a full answer to the query for the edges of `relation` that leave
/// `frontier`, whoever they belong to, and name the agents of the nodes.
pub open spec fn reports(
    graph: spec_fn(EdgeView) -> bool,
    owner: spec_fn(Seq<char>) -> Option<Seq<char>>,
    relation: Seq<char>,
    frontier: Seq<Seq<char>>,
    rows: Seq<EdgeRow>,
) -> bool {
    &&& answers(graph, relation, Seq::empty(), frontier, rows)
    &&& names_agents(owner, rows)
}

/// What the database reports is a full answer about the graph of the agent that
/// the walk is for, so that all that holds of a fully answered walk holds of a
/// walk in that graph.
pub proof fn a_report_answers_for_the_agent(
    graph: spec_fn(EdgeView) -> bool,
    owner: spec_fn(Seq<char>) -> Option<Seq<char>>,
    relation: Seq<char>,
    agent: Seq<char>,
    frontier: Seq<Seq<char>>,
    rows: Seq<EdgeRow>,
)
    requires
        reports(graph, owner, relation, frontier, rows),
    ensures
        answers(agent_graph(graph, owner, agent), relation, agent, frontier, rows),
{
    let part = agent_graph(graph, owner, agent);
    let any = Seq::<char>::empty();
    assert forall|i: int| 0 <= i < rows.len() implies ({
        let edge = row_edge(#[trigger] rows[i], relation, agent);
        edge is Some ==> part(edge->0) && queryable(edge->0.from) && frontier.contains(
            edge->0.from,
        )
    }) by {
        if let Some(e) = row_edge(rows[i], relation, agent) {
            assert(row_edge(rows[i], relation, any) == Some(e));
        }
    }
    assert forall|e: EdgeView|
        #[trigger] part(e) && e.relation == relation && queryable(e.from) && frontier.contains(
            e.from,
        ) implies exists|i: int|
        0 <= i < rows.len() && row_edge(#[trigger] rows[i], relation, agent) == Some(e) by {
        assert(graph(e));
        let i = choose|i: int|
            0 <= i < rows.len() && row_edge(#[trigger] rows[i], relation, any) == Some(e);
        assert(row_edge(rows[i], relation, agent) == Some(e));
    }
}

// --- Whole walks -------------------------------------------------------------

/// Node `a` is no farther from `start` than node `b`.
pub open spec fn no_farther(
    graph: spec_fn(EdgeView) -> bool,
    tables: Seq<Seq<char>>,
    start: Seq<char>,
    a: Seq<char>,
    b: Seq<char>,
) -> bool {
    forall|hops: nat| #[trigger]
        within(graph, tables, start, b, hops) ==> within(graph, tables, start, a, hops)
}

/// The edges come in the order of their distance from `start`.
pub open spec fn by_distance(
    graph: spec_fn(EdgeView) -> bool,
    tables: Seq<Seq<char>>,
    start: Seq<char>,
    found: Seq<EdgeView>,
) -> bool {
    forall|i: int, j: int|
        0 <= i < j < found.len() ==> no_farther(
            graph,
            tables,
            start,
            (#[trigger] found[i]).from,
            (#[trigger] found[j]).from,
        )
}

proof fn lemma_absorbed_by_distance(
    walk: WalkView,
    graph: spec_fn(EdgeView) -> bool,
    start: Seq<char>,
    done: nat,
    rows: Seq<EdgeRow>,
)
    requires
        walk.wf(),
        explored(walk, graph, start, done),
        by_distance(graph, walk.tables, start, walk.found),
        forall|i: int|
            0 <= i < rows.len() ==> {
                let edge = row_edge(#[trigger] rows[i], walk.tables[walk.table], walk.agent_id);
                edge is Some ==> graph(edge->0) && queryable(edge->0.from)
                    && walk.frontier.contains(edge->0.from)
            },
    ensures
        by_distance(
            graph,
            walk.tables,
            start,
            absorbed(
                walk.found,
                walk.next,
                walk.tables[walk.table],
                walk.agent_id,
                rows,
            ).0,
        ),
    decreases rows.len(),
{
    if rows.len() > 0 {
        let front = rows.drop_last();
        let relation = walk.tables[walk.table];
        let tables = walk.tables;
        assert forall|i: int| 0 <= i < front.len() implies ({
            let edge = row_edge(#[trigger] front[i], relation, walk.agent_id);
            edge is Some ==> graph(edge->0) && queryable(edge->0.from) && walk.frontier.contains(
                edge->0.from,
            )
        }) by {
            assert(front[i] == rows[i]);
        }
        lemma_absorbed(walk, graph, start, done, front);
        lemma_absorbed_by_distance(walk, graph, start, done, front);
        let (f, n) = absorbed(walk.found, walk.next, relation, walk.agent_id, front);
        let found = absorbed(walk.found, walk.next, relation, walk.agent_id, rows).0;
        assert(rows[rows.len() - 1] == rows.last());
        if let Some(e) = row_edge(rows.last(), relation, walk.agent_id) {
            if !f.contains(e) {
                assert(found == f.push(e));
                assert(tables.contains(relation));
                assert(follows(graph, tables, e));
                let before = WalkView { found: f, next: n, ..walk };
                assert(explored(before, graph, start, done));
                assert(done >= 1 ==> !within(graph, tables, start, e.from, (done - 1) as nat));
                assert forall|i: int, j: int| 0 <= i < j < found.len() implies no_farther(
                    graph,
                    tables,
                    start,
                    (#[trigger] found[i]).from,
                    (#[trigger] found[j]).from,
                ) by {
                    if j < f.len() {
                        assert(no_farther(graph, tables, start, f[i].from, f[j].from));
                    } else {
                        assert(found[i] == f[i]);
                        assert(within(graph, tables, start, f[i].from, done));
                        assert forall|hops: nat| #[trigger]
                            within(graph, tables, start, e.from, hops) implies within(
                            graph,
                            tables,
                            start,
                            f[i].from,
                            hops,
                        ) by {
                            if hops < done {
                                within_grows(
                                    graph,
                                    tables,
                                    start,
                                    e.from,
                                    hops,
                                    (done - 1) as nat,
                                );
                            } else {
                                within_grows(graph, tables, start, f[i].from, done, hops);
                            }
                        }
                    }
                }
            }
        }
    }
}

/// Where a walk stands, and what it does next, once some queries have been
/// answered.
pub open spec fn walked(walk: WalkView, replies: Seq<Seq<EdgeRow>>) -> (WalkView, StepView)
    decreases replies.len(),
{
    if replies.len() == 0 {
        (walk, walk.query())
    } else {
        walked(walk, replies.drop_last()).0.on_rows(replies.last())
    }
}

/// Each of the replies answers, in full, the query that the walk made.
pub open spec fn fully_answered(
    graph: spec_fn(EdgeView) -> bool,
    walk: WalkView,
    replies: Seq<Seq<EdgeRow>>,
) -> bool
    decreases replies.len(),
{
    replies.len() == 0 || {
        let (before, step) = walked(walk, replies.drop_last());
        &&& fully_answered(graph, walk, replies.drop_last())
        &&& step is Query
        &&& answers(
            graph,
            before.tables[before.table],
            before.agent_id,
            before.frontier,
            replies.last(),
        )
    }
}

/// The walk is over, and each of its queries was answered in full.
pub open spec fn is_finished(
    graph: spec_fn(EdgeView) -> bool,
    walk: WalkView,
    replies: Seq<Seq<EdgeRow>>,
) -> bool {
    fully_answered(graph, walk, replies) && walked(walk, replies).1 is Finish
}

proof fn lemma_walked(
    start: Seq<char>,
    depth: u32,
    filters: GraphFilters,
    graph: spec_fn(EdgeView) -> bool,
    replies: Seq<Seq<EdgeRow>>,
)
    requires
        depth >= 1,
        fully_answered(graph, WalkView::begin(start, depth, filters), replies),
    ensures
        ({
            let (walk, step) = walked(WalkView::begin(start, depth, filters), replies);
            let done = depth - walk.rounds;
            &&& walk.tables == filters.tables()
            &&& walk.max_edges == filters.max_edges
            &&& 0 <= done <= depth
            &&& explored(walk, graph, start, done as nat)
            &&& by_distance(graph, walk.tables, start, walk.found)
            &&& step is Query ==> walk.wf()
            &&& step is Query || step is Finish
            &&& step is Finish ==> step == StepView::Finish(walk.results()) && done >= 1
                && walk.table == 0 && walk.next.len() == 0 && (done == depth
                || walk.frontier.len() == 0)
        }),
    decreases replies.len(),
{
    let first = WalkView::begin(start, depth, filters);
    if replies.len() == 0 {
        a_fresh_walk_is_explored(start, depth, filters, graph);
        assert(filters.tables().len() > 0) by {
            if filters.relations@.len() > 0 {
                assert(filters.relations.deep_view().len() == filters.relations@.len());
            }
        }
    } else {
        lemma_walked(start, depth, filters, graph, replies.drop_last());
        let before = walked(first, replies.drop_last()).0;
        let rows = replies.last();
        let done = (depth - before.rounds) as nat;
        absorbing_an_answer_keeps_a_walk_explored(before, graph, start, done, rows);
        lemma_absorbed_by_distance(before, graph, start, done, rows);
        let grown = before.absorb(rows);
        if grown.table >= grown.tables.len() {
            closing_a_round_keeps_a_walk_explored(grown, graph, start, done);
        }
    }
}

/// What a walk of `depth` rounds returns, where its queries are answered in full:
/// the edges that leave a node within `depth - 1` hops of the start, each of them
/// once, the nearer ones first, up to the cap.
pub proof fn a_walk_returns_what_is_in_reach(
    start: Seq<char>,
    depth: u32,
    filters: GraphFilters,
    graph: spec_fn(EdgeView) -> bool,
    replies: Seq<Seq<EdgeRow>>,
)
    requires
        depth >= 1,
        is_finished(graph, WalkView::begin(start, depth, filters), replies),
    ensures
        ({
            let (walk, step) = walked(WalkView::begin(start, depth, filters), replies);
            &&& step == StepView::Finish(
                capped(walk.found, filters.max_edges).map_values(|e: EdgeView| result_row(e)),
            )
            &&& forall|e: EdgeView| #[trigger]
                walk.found.contains(e) <==> follows(graph, filters.tables(), e) && within(
                    graph,
                    filters.tables(),
                    start,
                    e.from,
                    (depth - 1) as nat,
                )
            &&& walk.found.no_duplicates()
            &&& by_distance(graph, filters.tables(), start, walk.found)
        }),
{
    lemma_walked(start, depth, filters, graph, replies);
    let walk = walked(WalkView::begin(start, depth, filters), replies).0;
    let done = (depth - walk.rounds) as nat;
    assert forall|e: EdgeView| #[trigger] walk.found.contains(e) <==> follows(
        graph,
        filters.tables(),
        e,
    ) && within(graph, filters.tables(), start, e.from, (depth - 1) as nat) by {
        a_finished_walk_found_every_edge_in_reach(walk, graph, start, depth as nat, done, e);
    }
}

/// In a whole walk for an agent, every edge that is found joins two nodes of that
/// agent, as long as the replies name the agents of the nodes rightly.
pub proof fn every_edge_joins_nodes_of_the_agent(
    start: Seq<char>,
    depth: u32,
    filters: GraphFilters,
    replies: Seq<Seq<EdgeRow>>,
    owner: spec_fn(Seq<char>) -> Option<Seq<char>>,
)
    requires
        filters.agent_id@.len() > 0,
        forall|k: int| 0 <= k < replies.len() ==> names_agents(owner, #[trigger] replies[k]),
    ensures
        owned(
            owner,
            filters.agent_id@,
            walked(WalkView::begin(start, depth, filters), replies).0.found,
        ),
        walked(WalkView::begin(start, depth, filters), replies).0.agent_id == filters.agent_id@,
    decreases replies.len(),
{
    if replies.len() > 0 {
        let front = replies.drop_last();
        assert forall|k: int| 0 <= k < front.len() implies names_agents(
            owner,
            #[trigger] front[k],
        ) by {
            assert(front[k] == replies[k]);
        }
        every_edge_joins_nodes_of_the_agent(start, depth, filters, front, owner);
        assert(names_agents(owner, replies[replies.len() - 1]));
        a_walk_stays_with_its_agent(
            walked(WalkView::begin(start, depth, filters), front).0,
            replies.last(),
            owner,
        );
    }
}

/// A deeper walk holds what a shallower one finds: over one graph, and with the
/// same relations, every edge of the shallower walk is an edge of the deeper one.
pub proof fn a_deeper_walk_finds_no_less(
    start: Seq<char>,
    few: u32,
    many: u32,
    filters: GraphFilters,
    graph: spec_fn(EdgeView) -> bool,
    replies: Seq<Seq<EdgeRow>>,
    more_replies: Seq<Seq<EdgeRow>>,
    e: EdgeView,
)
    requires
        1 <= few <= many,
        is_finished(graph, WalkView::begin(start, few, filters), replies),
        is_finished(graph, WalkView::begin(start, many, filters), more_replies),
        walked(WalkView::begin(start, few, filters), replies).0.found.contains(e),
    ensures
        walked(WalkView::begin(start, many, filters), more_replies).0.found.contains(e),
{
    a_walk_returns_what_is_in_reach(start, few, filters, graph, replies);
    a_walk_returns_what_is_in_reach(start, many, filters, graph, more_replies);
    within_grows(graph, filters.tables(), start, e.from, (few - 1) as nat, (many - 1) as nat);
}

/// Two stores that hold the same graph give the same edges: whatever the order of
/// their rows, two walks that differ in nothing else find the same edges, each of
/// them once.
pub proof fn equal_graphs_give_equal_walks(
    start: Seq<char>,
    depth: u32,
    filters: GraphFilters,
    graph: spec_fn(EdgeView) -> bool,
    replies: Seq<Seq<EdgeRow>>,
    other_replies: Seq<Seq<EdgeRow>>,
)
    requires
        depth >= 1,
        is_finished(graph, WalkView::begin(start, depth, filters), replies),
        is_finished(graph, WalkView::begin(start, depth, filters), other_replies),
    ensures
        ({
            let a = walked(WalkView::begin(start, depth, filters), replies).0.found;
            let b = walked(WalkView::begin(start, depth, filters), other_replies).0.found;
            &&& forall|e: EdgeView| #[trigger] a.contains(e) <==> b.contains(e)
            &&& a.no_duplicates()
            &&& b.no_duplicates()
            &&& a.len() == b.len()
        }),
{
    a_walk_returns_what_is_in_reach(start, depth, filters, graph, replies);
    a_walk_returns_what_is_in_reach(start, depth, filters, graph, other_replies);
    let a = walked(WalkView::begin(start, depth, filters), replies).0.found;
    let b = walked(WalkView::begin(start, depth, filters), other_replies).0.found;
    assert forall|e: EdgeView| #[trigger] a.contains(e) <==> b.contains(e) by {
        assert(a.contains(e) <==> b.contains(e));
    }
    a.unique_seq_to_set();
    b.unique_seq_to_set();
    assert(a.to_set() =~= b.to_set());
}

// --- Walks of a database -----------------------------------------------------

/// A node and the record that it names: the table, a colon, and the key. The
/// first colon ends the table.
pub open spec fn names_record(node: Seq<char>, record: RecordIdView) -> bool {
    match record.key {
        KeyView::Text(key) => node == record.table + seq![':'] + key && !record.table.contains(':'),
        _ => false,
    }
}

proof fn lemma_colon(node: Seq<char>, i: int)
    requires
        0 <= i <= node.len(),
    ensures
        i <= colon_at(node, i) <= node.len(),
        forall|j: int| i <= j < colon_at(node, i) ==> node[j] != ':',
        colon_at(node, i) < node.len() ==> node[colon_at(node, i)] == ':',
    decreases node.len() - i,
{
    if i < node.len() && node[i] != ':' {
        lemma_colon(node, i + 1);
    }
}

/// A node can be queried exactly where there is a colon in it, and it then names
/// the record that is queried.
pub proof fn a_node_with_a_colon_names_its_record(node: Seq<char>)
    ensures
        queryable(node) <==> node.contains(':'),
        node.contains(':') ==> names_record(node, node_record(node)),
{
    lemma_colon(node, 0);
    let c = colon_at(node, 0);
    if node.contains(':') {
        let k = choose|k: int| 0 <= k < node.len() && node[k] == ':';
        assert(c <= k);
        let table = node.take(c);
        assert(!table.contains(':')) by {
            if table.contains(':') {
                let j = choose|j: int| 0 <= j < table.len() && table[j] == ':';
                assert(node[j] == ':');
            }
        }
        assert(node =~= table + seq![':'] + node.skip(c + 1));
    } else if c < node.len() {
        assert(node.contains(node[c]));
    }
}

proof fn lemma_node_records(nodes: Seq<Seq<char>>)
    ensures
        forall|i: int|
            0 <= i < nodes.len() && (#[trigger] nodes[i]).contains(':') ==> node_records(
                nodes,
            ).contains(node_record(nodes[i])),
        forall|k: int|
            0 <= k < node_records(nodes).len() ==> exists|i: int|
                0 <= i < nodes.len() && (#[trigger] nodes[i]).contains(':') && node_record(nodes[i])
                    == #[trigger] node_records(nodes)[k],
    decreases nodes.len(),
{
    if nodes.len() > 0 {
        let front = nodes.drop_last();
        let last = nodes.last();
        lemma_node_records(front);
        a_node_with_a_colon_names_its_record(last);
        let inner = node_records(front);
        let all = node_records(nodes);
        assert forall|i: int|
            0 <= i < nodes.len() && (#[trigger] nodes[i]).contains(':') implies all.contains(
            node_record(nodes[i]),
        ) by {
            if i < front.len() {
                assert(front[i] == nodes[i]);
                let k = choose|k: int| 0 <= k < inner.len() && inner[k] == node_record(nodes[i]);
                assert(all[k] == inner[k]);
            } else {
                assert(all[inner.len() as int] == node_record(last));
            }
        }
        assert forall|k: int| 0 <= k < all.len() implies exists|i: int|
            0 <= i < nodes.len() && (#[trigger] nodes[i]).contains(':') && node_record(nodes[i])
                == #[trigger] all[k] by {
            if k < inner.len() {
                assert(all[k] == inner[k]);
                let i = choose|i: int|
                    0 <= i < front.len() && (#[trigger] front[i]).contains(':') && node_record(
                        front[i],
                    ) == inner[k];
                assert(nodes[i] == front[i]);
            } else {
                assert(nodes[nodes.len() - 1] == last);
            }
        }
    }
}

/// The statement for the edges of a relation.
pub open spec fn edges_statement(relation: Seq<char>, agent: Seq<char>) -> Seq<char> {
    if agent.len() == 0 {
        "SELECT in, out FROM "@ + relation + " WHERE in IN $frontier"@
    } else {
        "SELECT in, out, in.agent_id AS in_agent, out.agent_id AS out_agent FROM "@ + relation
            + " WHERE in IN $frontier"@
    }
}

/// The query of a round names the whole frontier: every node with a colon has its
/// record bound to the query, every record that is bound is that of such a node,
/// and the statement asks for the edges of the current relation.
pub proof fn a_query_names_the_whole_frontier(walk: WalkView)
    ensures
        walk.query() is Query,
        walk.query()->statement == edges_statement(walk.tables[walk.table], walk.agent_id),
        forall|node: Seq<char>, record: RecordIdView|
            walk.frontier.contains(node) && #[trigger] names_record(node, record)
                ==> walk.query()->frontier.contains(record),
        forall|record: RecordIdView| #[trigger]
            walk.query()->frontier.contains(record) ==> exists|node: Seq<char>|
                walk.frontier.contains(node) && #[trigger] names_record(node, record),
{
    let records = node_records(walk.frontier);
    lemma_node_records(walk.frontier);
    assert forall|node: Seq<char>, record: RecordIdView|
        walk.frontier.contains(node) && #[trigger] names_record(
            node,
            record,
        ) implies records.contains(record) by {
        let i = choose|i: int| 0 <= i < walk.frontier.len() && walk.frontier[i] == node;
        assert(node[record.table.len() as int] == ':');
        a_node_with_a_colon_names_its_record(node);
        lemma_one_record(node, record, node_record(node));
        assert(walk.frontier[i].contains(':'));
    }
    assert forall|record: RecordIdView| #[trigger] records.contains(record) implies exists|
        node: Seq<char>,
    |
        walk.frontier.contains(node) && #[trigger] names_record(node, record) by {
        let k = choose|k: int| 0 <= k < records.len() && records[k] == record;
        let i = choose|i: int|
            0 <= i < walk.frontier.len() && (#[trigger] walk.frontier[i]).contains(':')
                && node_record(walk.frontier[i]) == records[k];
        a_node_with_a_colon_names_its_record(walk.frontier[i]);
        assert(names_record(walk.frontier[i], record));
    }
}

/// A node names one record.
proof fn lemma_one_record(node: Seq<char>, a: RecordIdView, b: RecordIdView)
    requires
        names_record(node, a),
        names_record(node, b),
    ensures
        a == b,
{
    let m = a.table.len() as int;
    let n = b.table.len() as int;
    assert(node[m] == ':');
    assert(node[n] == ':');
    if m < n {
        assert(b.table[m] == node[m]);
        assert(b.table.contains(':'));
    } else if n < m {
        assert(a.table[n] == node[n]);
        assert(a.table.contains(':'));
    }
    assert(a.table =~= node.take(m));
    assert(b.table =~= node.take(m));
    assert(a.key->Text_0 =~= node.skip(m + 1));
    assert(b.key->Text_0 =~= node.skip(m + 1));
}

/// The edge of a row: what its two ends name, where both name something. A walk
/// for an agent passes a row over exactly where an end is not that agent's.
pub proof fn a_row_is_an_edge(row: EdgeRow, relation: Seq<char>, agent: Seq<char>, e: EdgeView)
    ensures
        row_edge(row, relation, agent) == Some(e) <==> {
            &&& e.relation == relation
            &&& match row.source {
                EdgeEnd::Record(id) => e.from == id_text(id.deep_view()),
                EdgeEnd::Text(s) => e.from == s@,
                EdgeEnd::Unknown => false,
            }
            &&& match row.target {
                EdgeEnd::Record(id) => e.to == id_text(id.deep_view()),
                EdgeEnd::Text(s) => e.to == s@,
                EdgeEnd::Unknown => false,
            }
            &&& agent.len() > 0 ==> {
                &&& row.source_agent is Some
                &&& row.source_agent->0@ == agent
                &&& row.target_agent is Some
                &&& row.target_agent->0@ == agent
            }
        },
{
}

/// What a database returns for a statement and the records that are bound to it.
pub type Database = spec_fn(Seq<char>, Seq<RecordIdView>) -> Seq<EdgeRow>;

/// A database holds a graph: asked for the edges of a relation that leave some
/// records, it returns those edges and no others.
pub open spec fn holds_graph(
    db: Database,
    graph: spec_fn(EdgeView) -> bool,
    agent: Seq<char>,
) -> bool {
    forall|relation: Seq<char>, records: Seq<RecordIdView>|
        returns_edges(
            #[trigger] db(edges_statement(relation, agent), records),
            graph,
            relation,
            agent,
            records,
        )
}

/// The rows are those of the edges of a relation that leave some records.
pub open spec fn returns_edges(
    rows: Seq<EdgeRow>,
    graph: spec_fn(EdgeView) -> bool,
    relation: Seq<char>,
    agent: Seq<char>,
    records: Seq<RecordIdView>,
) -> bool {
    &&& forall|i: int|
        0 <= i < rows.len() ==> {
            let edge = row_edge(#[trigger] rows[i], relation, agent);
            edge is Some ==> graph(edge->0) && exists|r: RecordIdView|
                records.contains(r) && #[trigger] names_record(edge->0.from, r)
        }
    &&& forall|e: EdgeView, r: RecordIdView|
        graph(e) && e.relation == relation && records.contains(r) && #[trigger] names_record(
            e.from,
            r,
        ) ==> exists|i: int|
            0 <= i < rows.len() && row_edge(#[trigger] rows[i], relation, agent) == Some(e)
}

/// Each of the replies is what the database returns for the query that the walk
/// made.
pub open spec fn asked_of(db: Database, walk: WalkView, replies: Seq<Seq<EdgeRow>>) -> bool
    decreases replies.len(),
{
    replies.len() == 0 || {
        &&& asked_of(db, walk, replies.drop_last())
        &&& walked(walk, replies.drop_last()).1 matches StepView::Query { statement, frontier }
        &&& replies.last() == db(statement, frontier)
    }
}

proof fn lemma_asked(
    db: Database,
    graph: spec_fn(EdgeView) -> bool,
    walk: WalkView,
    replies: Seq<Seq<EdgeRow>>,
)
    requires
        holds_graph(db, graph, walk.agent_id),
        asked_of(db, walk, replies),
    ensures
        fully_answered(graph, walk, replies),
        walked(walk, replies).0.agent_id == walk.agent_id,
        walked(walk, replies).1 is Query ==> walked(walk, replies).1 == walked(
            walk,
            replies,
        ).0.query(),
    decreases replies.len(),
{
    if replies.len() > 0 {
        lemma_asked(db, graph, walk, replies.drop_last());
        let (before, step) = walked(walk, replies.drop_last());
        let relation = before.tables[before.table];
        let records = before.query()->frontier;
        let rows = replies.last();
        a_query_names_the_whole_frontier(before);
        assert(rows == db(edges_statement(relation, walk.agent_id), records));
        assert(returns_edges(rows, graph, relation, walk.agent_id, records));
        assert forall|i: int| 0 <= i < rows.len() implies ({
            let edge = row_edge(#[trigger] rows[i], relation, walk.agent_id);
            edge is Some ==> graph(edge->0) && queryable(edge->0.from) && before.frontier.contains(
                edge->0.from,
            )
        }) by {
            if let Some(e) = row_edge(rows[i], relation, walk.agent_id) {
                let r = choose|r: RecordIdView|
                    records.contains(r) && #[trigger] names_record(e.from, r);
                let node = choose|node: Seq<char>|
                    before.frontier.contains(node) && #[trigger] names_record(node, r);
                assert(node == e.from);
                assert(e.from[r.table.len() as int] == ':');
                a_node_with_a_colon_names_its_record(e.from);
            }
        }
        assert forall|e: EdgeView|
            #[trigger] graph(e) && e.relation == relation && queryable(e.from)
                && before.frontier.contains(e.from) implies exists|i: int|
            0 <= i < rows.len() && row_edge(#[trigger] rows[i], relation, walk.agent_id) == Some(
                e,
            ) by {
            a_node_with_a_colon_names_its_record(e.from);
            assert(names_record(e.from, node_record(e.from)));
        }
        assert(answers(graph, relation, walk.agent_id, before.frontier, rows));
    }
}

/// A walk over a database returns what is in reach: where the database holds a
/// graph, and answers the queries that the walk makes, the walk returns the edges
/// of the relations that it follows that leave a node, with a colon in it, within
/// `depth - 1` hops of the start; each once, the nearer ones first, and as many
/// as the cap allows.
pub proof fn a_walk_of_a_database_returns_what_is_in_reach(
    start: Seq<char>,
    depth: u32,
    filters: GraphFilters,
    graph: spec_fn(EdgeView) -> bool,
    db: Database,
    replies: Seq<Seq<EdgeRow>>,
)
    requires
        depth >= 1,
        holds_graph(db, graph, filters.agent_id@),
        asked_of(db, WalkView::begin(start, depth, filters), replies),
        walked(WalkView::begin(start, depth, filters), replies).1 is Finish,
    ensures
        ({
            let (walk, step) = walked(WalkView::begin(start, depth, filters), replies);
            let results = step->Finish_0;
            let cap = match filters.max_edges {
                Some(max) => max as int,
                None => walk.found.len() as int,
            };
            &&& results.len() == if cap < walk.found.len() {
                cap
            } else {
                walk.found.len() as int
            }
            &&& forall|i: int|
                0 <= i < results.len() ==> (#[trigger] results[i]) == (GraphResultView {
                    from: walk.found[i].from,
                    relation: walk.found[i].relation,
                    to: walk.found[i].to,
                    attributes: "{}"@,
                })
            &&& forall|e: EdgeView| #[trigger]
                walk.found.contains(e) <==> graph(e) && filters.tables().contains(e.relation)
                    && e.from.contains(':') && within(
                    graph,
                    filters.tables(),
                    start,
                    e.from,
                    (depth - 1) as nat,
                )
            &&& walk.found.no_duplicates()
            &&& by_distance(graph, filters.tables(), start, walk.found)
        }),
{
    let first = WalkView::begin(start, depth, filters);
    lemma_asked(db, graph, first, replies);
    a_walk_returns_what_is_in_reach(start, depth, filters, graph, replies);
    let (walk, step) = walked(first, replies);
    let results = step->Finish_0;
    let kept = capped(walk.found, filters.max_edges);
    assert(results == kept.map_values(|e: EdgeView| result_row(e)));
    assert forall|i: int| 0 <= i < results.len() implies (#[trigger] results[i]) == (
    GraphResultView {
        from: walk.found[i].from,
        relation: walk.found[i].relation,
        to: walk.found[i].to,
        attributes: "{}"@,
    }) by {
        assert(kept[i] == walk.found[i]);
        assert(results[i] == result_row(kept[i]));
    }
    assert forall|e: EdgeView| #[trigger] walk.found.contains(e) <==> graph(e)
        && filters.tables().contains(e.relation) && e.from.contains(':') && within(
        graph,
        filters.tables(),
        start,
        e.from,
        (depth - 1) as nat,
    ) by {
        a_node_with_a_colon_names_its_record(e.from);
    }
}

/// What is within reach: the start is, and so is the target of every edge that a
/// walk may follow from there; with one hop more, the targets of the edges that
/// leave what was in reach, and nothing else.
pub proof fn reach_is_one_hop_at_a_time(
    graph: spec_fn(EdgeView) -> bool,
    tables: Seq<Seq<char>>,
    start: Seq<char>,
    node: Seq<char>,
    hops: nat,
)
    ensures
        within(graph, tables, start, node, 0) <==> node == start,
        within(graph, tables, start, node, hops + 1) <==> within(graph, tables, start, node, hops)
            || exists|e: EdgeView|
            #[trigger] graph(e) && tables.contains(e.relation) && e.from.contains(':') && e.to
                == node && within(graph, tables, start, e.from, hops),
{
    if within(graph, tables, start, node, hops + 1) && !within(graph, tables, start, node, hops) {
        let e = choose|e: EdgeView|
            #[trigger] follows(graph, tables, e) && e.to == node && within(
                graph,
                tables,
                start,
                e.from,
                hops,
            );
        a_node_with_a_colon_names_its_record(e.from);
        assert(graph(e));
    }
    if exists|e: EdgeView|
        #[trigger] graph(e) && tables.contains(e.relation) && e.from.contains(':') && e.to == node
            && within(graph, tables, start, e.from, hops) {
        let e = choose|e: EdgeView|
            #[trigger] graph(e) && tables.contains(e.relation) && e.from.contains(':') && e.to
                == node && within(graph, tables, start, e.from, hops);
        a_node_with_a_colon_names_its_record(e.from);
        assert(follows(graph, tables, e));
    }
}

/// How a walk starts: one of no rounds is over at once; one for an agent asks
/// whose the start is, and goes on exactly where it is that agent's; any other
/// asks for the edges that leave the start.
pub proof fn a_walk_starts_at_its_start(
    start: Seq<char>,
    depth: u32,
    filters: GraphFilters,
    agent: Option<Seq<char>>,
)
    ensures
        ({
            let walk = WalkView::begin(start, depth, filters);
            let nothing = StepView::Finish(Seq::<GraphResultView>::empty());
            &&& walk.frontier == seq![start]
            &&& walk.found.len() == 0
            &&& depth == 0 ==> walk.first_step() == nothing
            &&& depth > 0 && filters.agent_id@.len() == 0 ==> walk.first_step() == walked(
                walk,
                Seq::empty(),
            ).1
            &&& depth > 0 && filters.agent_id@.len() > 0 ==> walk.first_step()
                == StepView::CheckAgent { start }
            &&& agent == Some(filters.agent_id@) ==> walk.on_agent(agent) == walked(
                walk,
                Seq::empty(),
            ).1
            &&& agent != Some(filters.agent_id@) ==> walk.on_agent(agent) == nothing
        }),
{
}

/// A walk follows the relations that its filters name; where they name none, all
/// that join episodes, concepts, entities and tasks.
pub proof fn a_walk_follows_the_named_relations(filters: GraphFilters, relation: Seq<char>)
    ensures
        filters.relations@.len() > 0 ==> (filters.tables().contains(relation) <==> exists|i: int|
            0 <= i < filters.relations@.len() && (#[trigger] filters.relations@[i])@ == relation),
        filters.relations@.len() == 0 ==> (filters.tables().contains(relation) <==> {
            ||| relation == "episode_relates_to_concept"@
            ||| relation == "episode_precedes_episode"@
            ||| relation == "episode_mentions_entity"@
            ||| relation == "concept_connects_to_concept"@
            ||| relation == "concept_about_entity"@
            ||| relation == "entity_relates_to_entity"@
            ||| relation == "episode_triggered_task"@
        }),
{
    let tables = filters.tables();
    if filters.relations@.len() == 0 {
        assert(tables.contains(tables[0]) && tables.contains(tables[1]) && tables.contains(
            tables[2],
        ) && tables.contains(tables[3]) && tables.contains(tables[4]) && tables.contains(tables[5])
            && tables.contains(tables[6]));
    } else {
        assert forall|i: int| 0 <= i < tables.len() implies #[trigger] tables[i]
            == filters.relations@[i]@ by {}
        if tables.contains(relation) {
            let i = choose|i: int| 0 <= i < tables.len() && tables[i] == relation;
            assert(filters.relations@[i]@ == relation);
        }
        if exists|i: int|
            0 <= i < filters.relations@.len() && (#[trigger] filters.relations@[i])@ == relation {
            let i = choose|i: int|
                0 <= i < filters.relations@.len() && (#[trigger] filters.relations@[i])@
                    == relation;
            assert(tables[i] == relation);
        }
    }
}

// --- The executable walk -----------------------------------------------------

/// The edge of a result row.
pub open spec fn edge_of(row: GraphResult) -> EdgeView {
    EdgeView { from: row.from@, relation: row.relation@, to: row.to@ }
}

/// A graph walk in progress.
#[derive(Debug)]
pub struct GraphWalk {
    agent_id: String,
    tables: Vec<String>,
    table: usize,
    rounds: u32,
    frontier: Vec<String>,
    next: Vec<String>,
    found: Vec<GraphResult>,
    max_edges: Option<u32>,
}

impl View for GraphWalk {
    type V = WalkView;

    closed spec fn view(&self) -> WalkView {
        WalkView {
            agent_id: self.agent_id@,
            tables: self.tables.deep_view(),
            table: self.table as int,
            rounds: self.rounds as int,
            frontier: self.frontier.deep_view(),
            next: self.next.deep_view(),
            found: self.found@.map_values(|r: GraphResult| edge_of(r)),
            max_edges: self.max_edges,
        }
    }
}

fn end_text(end: EdgeEnd) -> (r: Option<String>)
    ensures
        r.deep_view() == end_node(end),
{
    match end {
        EdgeEnd::Record(id) => Some(id.text()),
        EdgeEnd::Text(s) => Some(s),
        EdgeEnd::Unknown => None,
    }
}

fn is_admitted(row: &EdgeRow, agent: &str) -> (r: bool)
    ensures
        r == admitted(*row, agent@),
{
    if chars_of(agent).len() == 0 {
        return true;
    }
    match (&row.source_agent, &row.target_agent) {
        (Some(a), Some(b)) => same_text(a.as_str(), agent) && same_text(b.as_str(), agent),
        _ => false,
    }
}

fn is_known(found: &Vec<GraphResult>, from: &str, relation: &str, to: &str) -> (r: bool)
    ensures
        r == found@.map_values(|r: GraphResult| edge_of(r)).contains(
            EdgeView { from: from@, relation: relation@, to: to@ },
        ),
{
    let ghost edges = found@.map_values(|r: GraphResult| edge_of(r));
    let ghost e = EdgeView { from: from@, relation: relation@, to: to@ };
    let mut i: usize = 0;
    while i < found.len()
        invariant
            i <= found@.len(),
            edges == found@.map_values(|r: GraphResult| edge_of(r)),
            e == (EdgeView { from: from@, relation: relation@, to: to@ }),
            forall|k: int| 0 <= k < i ==> edges[k] != e,
        decreases found@.len() - i,
    {
        if same_text(found[i].from.as_str(), from) && same_text(
            found[i].relation.as_str(),
            relation,
        ) && same_text(found[i].to.as_str(), to) {
            assert(edges[i as int] == e);
            return true;
        }
        assert(edges[i as int] != e);
        i = i + 1;
    }
    false
}

fn has_node(nodes: &Vec<String>, x: &str) -> (r: bool)
    ensures
        r == nodes.deep_view().contains(x@),
{
    let mut i: usize = 0;
    while i < nodes.len()
        invariant
            i <= nodes@.len(),
            forall|k: int| 0 <= k < i ==> nodes.deep_view()[k] != x@,
        decreases nodes@.len() - i,
    {
        if same_text(nodes[i].as_str(), x) {
            assert(nodes.deep_view()[i as int] == x@);
            return true;
        }
        i = i + 1;
    }
    false
}

fn records_of(nodes: &Vec<String>) -> (r: Vec<RecordId>)
    ensures
        r.deep_view() == node_records(nodes.deep_view()),
{
    let mut out: Vec<RecordId> = Vec::new();
    let mut i: usize = 0;
    assert(out.deep_view() =~= node_records(nodes.deep_view().take(0)));
    while i < nodes.len()
        invariant
            i <= nodes@.len(),
            out.deep_view() == node_records(nodes.deep_view().take(i as int)),
        decreases nodes@.len() - i,
    {
        let ghost all = nodes.deep_view();
        assert(all.take(i + 1).drop_last() == all.take(i as int));
        let ghost node = nodes@[i as int]@;
        let chars = chars_of(nodes[i].as_str());
        let n: usize = chars.len();
        let mut colon: usize = 0;
        while colon < n && chars[colon] != ':'
            invariant
                colon <= n == chars@.len(),
                chars@ == node,
                colon_at(node, colon as int) == colon_at(node, 0),
            decreases n - colon,
        {
            colon = colon + 1;
        }
        if colon < n {
            let table = text_of(&chars, 0, colon);
            let key = text_of(&chars, colon + 1, n);
            let ghost before = out.deep_view();
            let id = RecordId::new(table.as_str(), key.as_str());
            assert(table@ == node.take(colon as int));
            assert(key@ == node.skip(colon + 1));
            out.push(id);
            assert(out.deep_view() =~= before.push(node_record(node)));
        }
        i = i + 1;
    }
    assert(nodes.deep_view().take(i as int) == nodes.deep_view());
    out
}

impl GraphWalk {
    /// Starts a walk of `depth` rounds from `start`.
    pub fn begin(start: &str, depth: u32, filters: &GraphFilters) -> (r: (GraphWalk, GraphStep))
        ensures
            r.0@ == WalkView::begin(start@, depth, *filters),
            r.1.deep_view() == r.0@.first_step(),
            depth >= 1 ==> r.0@.wf(),
    {
        let mut frontier: Vec<String> = Vec::new();
        frontier.push(start.to_owned());
        let walk = GraphWalk {
            agent_id: filters.agent_id.clone(),
            tables: filters.followed(),
            table: 0,
            rounds: depth,
            frontier,
            next: Vec::new(),
            found: Vec::new(),
            max_edges: filters.max_edges,
        };
        proof {
            assert(walk@.frontier =~= seq![start@]);
            assert(walk@.next =~= Seq::<Seq<char>>::empty());
            assert(walk@.found =~= Seq::<EdgeView>::empty());
        }
        if depth == 0 {
            let none: Vec<GraphResult> = Vec::new();
            assert(none.deep_view() =~= Seq::<GraphResultView>::empty());
            return (walk, GraphStep::Finish(none));
        }
        if !walk.is_for_any() {
            return (walk, GraphStep::CheckAgent { start: start.to_owned() });
        }
        let step = walk.query();
        (walk, step)
    }

    fn is_for_any(&self) -> (r: bool)
        ensures
            r == (self@.agent_id.len() == 0),
    {
        chars_of(self.agent_id.as_str()).len() == 0
    }

    fn query(&self) -> (r: GraphStep)
        requires
            self@.wf(),
        ensures
            r.deep_view() == self@.query(),
    {
        let selection = if self.is_for_any() {
            "SELECT in, out FROM "
        } else {
            "SELECT in, out, in.agent_id AS in_agent, out.agent_id AS out_agent FROM "
        };
        GraphStep::Query {
            statement: selection.to_owned().concat(self.tables[self.table].as_str()).concat(
                " WHERE in IN $frontier",
            ),
            frontier: records_of(&self.frontier),
        }
    }

    /// Takes the agent of the start node, where the node exists and has one.
    pub fn agent_read(&self, agent: &Option<String>) -> (r: GraphStep)
        requires
            self@.wf(),
        ensures
            r.deep_view() == self@.on_agent(agent.deep_view()),
    {
        if let Some(a) = agent {
            if same_text(a.as_str(), self.agent_id.as_str()) {
                return self.query();
            }
        }
        let none: Vec<GraphResult> = Vec::new();
        assert(none.deep_view() =~= Seq::<GraphResultView>::empty());
        GraphStep::Finish(none)
    }

    fn absorb_rows(&mut self, rows: Vec<EdgeRow>)
        requires
            old(self)@.wf(),
        ensures
            final(self)@ == old(self)@.absorb(rows@),
    {
        let ghost start = self@;
        let ghost all = rows@;
        let ghost relation = start.tables[start.table];
        let name = self.tables[self.table].clone();
        let count: usize = self.tables.len();
        let mut rest = rows;
        let ghost mut done: int = 0;
        assert(all.skip(0) == all);
        while rest.len() > 0
            invariant
                0 <= done <= all.len(),
                rest@ == all.skip(done),
                start.table < count,
                name@ == relation,
                (self@.found, self@.next) == absorbed(
                    start.found,
                    start.next,
                    relation,
                    start.agent_id,
                    all.take(done),
                ),
                self@ == (WalkView { found: self@.found, next: self@.next, ..start }),
            decreases rest@.len(),
        {
            let row = rest.remove(0);
            assert(rest@ == all.skip(done + 1));
            assert(all.take(done + 1).drop_last() == all.take(done));
            assert(all.take(done + 1).last() == row);
            let ghost before = self@;
            let may_follow = is_admitted(&row, self.agent_id.as_str());
            let from = end_text(row.source);
            let to = end_text(row.target);
            if let (true, Some(from), Some(to)) = (may_follow, from, to) {
                let ghost e = EdgeView { from: from@, relation, to: to@ };
                if !is_known(&self.found, from.as_str(), name.as_str(), to.as_str()) {
                    if !has_node(&self.next, to.as_str()) {
                        let ghost old_next = self.next.deep_view();
                        self.next.push(to.clone());
                        assert(self.next.deep_view() =~= old_next.push(to@));
                    }
                    let ghost old_found = self.found@.map_values(|r: GraphResult| edge_of(r));
                    self.found.push(
                        GraphResult {
                            from,
                            relation: name.clone(),
                            to,
                            attributes: "{}".to_owned(),
                        },
                    );
                    assert(self.found@.map_values(|r: GraphResult| edge_of(r)) =~= old_found.push(
                        e,
                    ));
                }
            }
            proof {
                done = done + 1;
            }
        }
        assert(all.take(done) == all);
        self.table = self.table + 1;
    }

    fn results(&self) -> (r: Vec<GraphResult>)
        ensures
            r.deep_view() == self@.results(),
    {
        let ghost kept = capped(self@.found, self.max_edges);
        let n: usize = match self.max_edges {
            Some(max) => {
                if (max as usize) < self.found.len() {
                    max as usize
                } else {
                    self.found.len()
                }
            },
            None => self.found.len(),
        };
        assert(kept.len() == n);
        let mut out: Vec<GraphResult> = Vec::new();
        let mut i: usize = 0;
        while i < n
            invariant
                i <= n <= self.found@.len(),
                kept == capped(self@.found, self.max_edges),
                kept.len() == n,
                out@.len() == i,
                forall|k: int|
                    0 <= k < i ==> (#[trigger] out@[k]).deep_view() == result_row(kept[k]),
            decreases n - i,
        {
            assert(kept[i as int] == edge_of(self.found@[i as int]));
            out.push(
                GraphResult {
                    from: self.found[i].from.clone(),
                    relation: self.found[i].relation.clone(),
                    to: self.found[i].to.clone(),
                    attributes: "{}".to_owned(),
                },
            );
            i = i + 1;
        }
        assert(out.deep_view() =~= kept.map_values(|e: EdgeView| result_row(e)));
        out
    }

    /// Takes the rows of the query for the current relation.
    pub fn rows_read(&mut self, rows: Vec<EdgeRow>) -> (r: GraphStep)
        requires
            old(self)@.wf(),
        ensures
            (final(self)@, r.deep_view()) == old(self)@.on_rows(rows@),
            r is Query ==> final(self)@.wf(),
    {
        self.absorb_rows(rows);
        if self.table < self.tables.len() {
            return self.query();
        }
        let ghost grown = self@;
        self.table = 0;
        self.rounds = self.rounds - 1;
        let mut reached: Vec<String> = Vec::new();
        std::mem::swap(&mut reached, &mut self.next);
        self.frontier = reached;
        proof {
            assert(self@.next =~= Seq::<Seq<char>>::empty());
            assert(self@ == grown.close_round());
        }
        if self.rounds == 0 || self.frontier.len() == 0 {
            return GraphStep::Finish(self.results());
        }
        self.query()
    }
}

} // verus!

use std::collections::HashSet;

use engram::storage::graph::{EdgeEnd, EdgeRow, GraphFilters, GraphStep, GraphWalk};
use engram::storage::record::{GraphResult, RecordId};

const EDGES: &[(&str, &str, &str)] = &[
    ("episode:ep_a", "episode_mentions_entity", "entity:ent_apple"),
    ("episode:ep_a", "episode_mentions_entity", "entity:ent_orange"),
    ("episode:ep_b", "episode_mentions_entity", "entity:ent_apple"),
    ("episode:ep_b", "episode_relates_to_concept", "concept:con_fruit"),
    ("concept:con_fruit", "concept_connects_to_concept", "concept:con_tropical"),
    ("entity:ent_apple", "entity_relates_to_entity", "entity:ent_fruit"),
];

fn rid(s: &str) -> RecordId {
    let (table, key) = s.split_once(':').unwrap();
    RecordId::new(table, key)
}

/// A row of an edge query whose ends belong to the agent `agent-g`.
fn row(source: EdgeEnd, target: EdgeEnd) -> EdgeRow {
    let agent = Some("agent-g".to_string());
    EdgeRow { source, target, source_agent: agent.clone(), target_agent: agent }
}

/// Walks the graph; every node belongs to the agent `agent-g`.
fn traverse(start: &str, depth: u32, filters: &GraphFilters) -> Vec<GraphResult> {
    traverse_edges(EDGES, start, depth, filters)
}

/// Walks a graph whose rows come in the order of `edges`.
fn traverse_edges(
    edges: &[(&str, &str, &str)],
    start: &str,
    depth: u32,
    filters: &GraphFilters,
) -> Vec<GraphResult> {
    let (mut walk, mut step) = GraphWalk::begin(start, depth, filters);
    loop {
        step = match step {
            GraphStep::CheckAgent { start } => {
                let known = edges.iter().any(|e| e.0 == start || e.2 == start);
                let agent = if known { Some("agent-g".to_string()) } else { None };
                walk.agent_read(&agent)
            }
            GraphStep::Query { statement, frontier } => {
                let relation = edges
                    .iter()
                    .map(|e| e.1)
                    .find(|r| statement.contains(&format!("FROM {r} ")))
                    .unwrap_or("");
                let rows = edges
                    .iter()
                    .filter(|e| e.1 == relation && frontier.iter().any(|f| f.text() == e.0))
                    .map(|e| row(EdgeEnd::Record(rid(e.0)), EdgeEnd::Record(rid(e.2))))
                    .collect();
                walk.rows_read(rows)
            }
            GraphStep::Finish(results) => return results,
        };
    }
}

#[test]
fn graph_traversal_depth_1() {
    let edges = traverse("episode:ep_a", 1, &GraphFilters::any());
    assert_eq!(edges.len(), 2, "depth 1 should return 2 edges, got: {edges:?}");
    for e in &edges {
        assert_eq!(e.from, "episode:ep_a");
        assert_eq!(e.relation, "episode_mentions_entity");
    }
    let tos: HashSet<&str> = edges.iter().map(|e| e.to.as_str()).collect();
    assert!(tos.contains("entity:ent_apple"));
    assert!(tos.contains("entity:ent_orange"));
}

#[test]
fn graph_traversal_depth_2() {
    let edges = traverse("episode:ep_a", 2, &GraphFilters::any());
    assert_eq!(edges.len(), 3, "depth 2 should return 3 edges, got: {edges:?}");
    let relations: HashSet<_> = edges.iter().map(|e| e.relation.as_str()).collect();
    assert!(relations.contains("episode_mentions_entity"));
    assert!(relations.contains("entity_relates_to_entity"));
}

#[test]
fn graph_traversal_depth_3() {
    let edges = traverse("episode:ep_a", 3, &GraphFilters::any());
    assert_eq!(edges.len(), 3, "depth 3 should return 3 edges, got: {edges:?}");
}

#[test]
fn graph_traversal_filter_by_relation() {
    let edges =
        traverse("episode:ep_a", 3, &GraphFilters::relations(&["episode_mentions_entity"]));
    assert!(
        edges.iter().all(|e| e.relation == "episode_mentions_entity"),
        "filter must constrain relation: {edges:?}"
    );
    assert_eq!(edges.len(), 2, "depth 1 from ep_a is 2 mentions");
}

#[test]
fn graph_traversal_max_edges_filter() {
    let filters = GraphFilters::any().with_max_edges(1);
    let edges = traverse("episode:ep_a", 3, &filters);
    assert_eq!(edges.len(), 1, "max_edges=1 should cap to 1 edge");
}

#[test]
fn graph_traversal_depth_0_returns_empty() {
    let edges = traverse("episode:ep_a", 0, &GraphFilters::any());
    assert!(edges.is_empty(), "depth 0 must return no edges");
}

#[test]
fn cross_agent_graph_traversal_is_empty() {
    let edges = traverse("episode:ep_a", 3, &GraphFilters::for_agent("agent-other"));
    assert!(edges.is_empty(), "another agent must not see the graph: {edges:?}");
    assert_eq!(traverse("episode:ep_a", 1, &GraphFilters::for_agent("agent-g")).len(), 2);
    assert!(traverse("episode:gone", 1, &GraphFilters::for_agent("agent-g")).is_empty());
}

#[test]
fn edges_without_two_nodes_are_left_out() {
    let filters = GraphFilters::relations(&["entity_relates_to_entity"]);
    let (mut walk, step) = GraphWalk::begin("entity:a", 1, &filters);
    assert!(matches!(
        step,
        GraphStep::Query { statement, frontier }
            if statement.contains("entity_relates_to_entity") && frontier.len() == 1
                && frontier[0].text() == "entity:a"
    ));
    let step = walk.rows_read(vec![
        row(EdgeEnd::Text("entity:a".to_string()), EdgeEnd::Unknown),
        row(EdgeEnd::Text("entity:a".to_string()), EdgeEnd::Text("entity:b".to_string())),
        row(EdgeEnd::Record(rid("entity:a")), EdgeEnd::Record(rid("entity:b"))),
    ]);
    match step {
        GraphStep::Finish(found) => {
            assert_eq!(found.len(), 1);
            assert_eq!((found[0].from.as_str(), found[0].to.as_str()), ("entity:a", "entity:b"));
        }
        other => panic!("{other:?}"),
    }
}

#[test]
fn filters_follow_all_relations_unless_told() {
    assert_eq!(GraphFilters::any().followed().len(), 7);
    assert_eq!(GraphFilters::default().followed().len(), 7);
    assert_eq!(GraphFilters::relations(&["x", "y"]).followed(), vec!["x", "y"]);
    assert_eq!(GraphFilters::for_agent("a").agent_id, "a");
}

#[test]
fn a_walk_does_not_leave_its_agents_graph() {
    let to = |node: &str, owner: Option<&str>| EdgeRow {
        target_agent: owner.map(|a| a.to_string()),
        ..row(EdgeEnd::Record(rid("entity:a")), EdgeEnd::Record(rid(node)))
    };
    let mut filters = GraphFilters::for_agent("agent-g");
    filters.relations = vec!["entity_relates_to_entity".to_string()];
    let (mut walk, step) = GraphWalk::begin("entity:a", 1, &filters);
    assert!(matches!(step, GraphStep::CheckAgent { start } if start == "entity:a"));
    match walk.agent_read(&Some("agent-g".to_string())) {
        GraphStep::Query { statement, .. } => assert_eq!(
            statement,
            "SELECT in, out, in.agent_id AS in_agent, out.agent_id AS out_agent \
             FROM entity_relates_to_entity WHERE in IN $frontier"
        ),
        other => panic!("{other:?}"),
    }
    let step = walk.rows_read(vec![
        to("entity:own", Some("agent-g")),
        to("entity:foreign", Some("agent-other")),
        to("entity:nobody", None),
    ]);
    match step {
        GraphStep::Finish(found) => {
            let nodes: Vec<&str> = found.iter().map(|e| e.to.as_str()).collect();
            assert_eq!(nodes, vec!["entity:own"]);
        }
        other => panic!("{other:?}"),
    }
}

#[test]
fn a_deeper_walk_holds_the_shallower_one() {
    let shallow = traverse("episode:ep_a", 1, &GraphFilters::any());
    let deep = traverse("episode:ep_a", 2, &GraphFilters::any());
    let nodes = |v: &[GraphResult]| v.iter().map(|e| e.to.clone()).collect::<Vec<_>>();
    assert_eq!(nodes(&deep)[..2], nodes(&shallow)[..]);
    assert_eq!(deep[2].from, "entity:ent_apple");
}

#[test]
fn the_order_of_rows_does_not_change_what_is_found() {
    let mut turned = EDGES.to_vec();
    turned.reverse();
    let found = |edges: &[(&str, &str, &str)]| {
        traverse_edges(edges, "episode:ep_b", 3, &GraphFilters::any())
            .into_iter()
            .map(|e| (e.from, e.relation, e.to))
            .collect::<HashSet<_>>()
    };
    assert_eq!(found(EDGES), found(&turned));
    assert_eq!(found(EDGES).len(), 4);
}

#[test]
fn nearer_edges_come_first() {
    let edges = traverse("episode:ep_b", 3, &GraphFilters::any());
    let from: Vec<&str> = edges.iter().map(|e| e.from.as_str()).collect();
    assert_eq!(from[..2], ["episode:ep_b", "episode:ep_b"]);
    assert!(!from[2..].contains(&"episode:ep_b"));
}

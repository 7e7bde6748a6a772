use undirected_graph::{Graph, NodeNotInGraph, UndirectedGraph};

fn record(from: &str, to: &str, weight: i32) -> (String, String, i32) {
    (from.to_string(), to.to_string(), weight)
}

fn owned(graph: &UndirectedGraph) -> Vec<(String, String, i32)> {
    graph
        .edges()
        .into_iter()
        .map(|(from, to, weight)| (from.clone(), to.clone(), weight))
        .collect()
}

fn count(records: &[(String, String, i32)], wanted: &(String, String, i32)) -> usize {
    records.iter().filter(|found| *found == wanted).count()
}

#[test]
fn test_add_edge() {
    let mut graph = UndirectedGraph::new();
    graph.add_edge(("a", "b", 5));
    graph.add_edge(("b", "c", 10));
    graph.add_edge(("c", "a", 7));

    let expected_edges = [
        (&"a".into(), &"b".into(), 5),
        (&"b".into(), &"a".into(), 5),
        (&"b".into(), &"c".into(), 10),
        (&"c".into(), &"b".into(), 10),
        (&"c".into(), &"a".into(), 7),
        (&"a".into(), &"c".into(), 7),
    ];

    for edge in &expected_edges {
        assert!(graph.edges().contains(edge), "Missing edge: {:?}", edge);
    }
}

#[test]
fn triangle_has_six_records_and_three_nodes() {
    let mut graph = UndirectedGraph::new();
    graph.add_edge(("a", "b", 5));
    graph.add_edge(("b", "c", 10));
    graph.add_edge(("c", "a", 7));

    let records = owned(&graph);
    assert_eq!(records.len(), 6);
    for wanted in [
        record("a", "b", 5),
        record("b", "a", 5),
        record("b", "c", 10),
        record("c", "b", 10),
        record("c", "a", 7),
        record("a", "c", 7),
    ] {
        assert_eq!(count(&records, &wanted), 1, "{:?}", wanted);
    }

    let nodes = graph.nodes();
    assert_eq!(nodes.len(), 3);
    assert!(nodes.contains("a"));
    assert!(nodes.contains("b"));
    assert!(nodes.contains("c"));
    assert!(!nodes.contains("d"));

    assert!(graph.contains("a"));
    assert!(graph.contains("b"));
    assert!(graph.contains("c"));
    assert!(!graph.contains("d"));
}

#[test]
fn records_come_node_by_node_in_order_of_arrival() {
    let mut graph = UndirectedGraph::new();
    graph.add_edge(("a", "b", 5));
    graph.add_edge(("b", "c", 10));
    graph.add_edge(("c", "a", 7));

    assert_eq!(
        owned(&graph),
        vec![
            record("a", "b", 5),
            record("a", "c", 7),
            record("b", "a", 5),
            record("b", "c", 10),
            record("c", "b", 10),
            record("c", "a", 7),
        ]
    );
}

#[test]
fn new_graph_is_empty() {
    let graph = UndirectedGraph::new();
    assert!(graph.edges().is_empty());
    assert!(graph.nodes().is_empty());
    assert_eq!(graph.nodes().len(), 0);
    assert!(!graph.contains("a"));
    assert!(!graph.contains(""));
    assert_eq!(graph.adjacency_table().len(), 0);
}

#[test]
fn new_through_the_trait_is_empty() {
    let graph: UndirectedGraph = Graph::new();
    assert!(graph.edges().is_empty());
    assert_eq!(graph.nodes().len(), 0);
}

#[test]
fn edge_is_stored_in_both_directions() {
    let mut graph = UndirectedGraph::new();
    graph.add_edge(("left", "right", 42));
    let records = owned(&graph);
    assert!(records.contains(&record("left", "right", 42)));
    assert!(records.contains(&record("right", "left", 42)));
    assert_eq!(records.len(), 2);
}

#[test]
fn add_node_twice_changes_nothing() {
    let mut graph = UndirectedGraph::new();
    assert!(graph.add_node("x"));
    assert!(graph.contains("x"));
    assert_eq!(graph.nodes().len(), 1);
    assert!(graph.add_node("x"));
    assert!(graph.contains("x"));
    assert_eq!(graph.nodes().len(), 1);
    assert!(graph.edges().is_empty());
}

#[test]
fn add_node_keeps_the_edges_of_a_present_node() {
    let mut graph = UndirectedGraph::new();
    graph.add_edge(("a", "b", 1));
    let before = owned(&graph);
    assert!(graph.add_node("a"));
    assert!(graph.add_node("b"));
    assert_eq!(owned(&graph), before);
    assert_eq!(graph.nodes().len(), 2);
}

#[test]
fn add_edge_creates_missing_endpoints() {
    let mut graph = UndirectedGraph::new();
    assert!(!graph.contains("u"));
    assert!(!graph.contains("v"));
    graph.add_edge(("u", "v", 3));
    assert!(graph.contains("u"));
    assert!(graph.contains("v"));
    assert_eq!(graph.nodes().len(), 2);
}

#[test]
fn add_edge_creates_only_the_missing_endpoint() {
    let mut graph = UndirectedGraph::new();
    graph.add_node("u");
    graph.add_edge(("u", "v", 3));
    assert_eq!(graph.nodes().len(), 2);
    assert_eq!(owned(&graph), vec![record("u", "v", 3), record("v", "u", 3)]);
}

#[test]
fn same_edge_twice_is_stored_twice() {
    let mut graph = UndirectedGraph::new();
    graph.add_edge(("u", "v", 3));
    graph.add_edge(("u", "v", 3));
    let records = owned(&graph);
    assert_eq!(count(&records, &record("u", "v", 3)), 2);
    assert_eq!(count(&records, &record("v", "u", 3)), 2);
    assert_eq!(records.len(), 4);
    assert_eq!(graph.nodes().len(), 2);
}

#[test]
fn same_endpoints_with_another_weight_are_another_edge() {
    let mut graph = UndirectedGraph::new();
    graph.add_edge(("u", "v", 3));
    graph.add_edge(("u", "v", 4));
    let records = owned(&graph);
    assert_eq!(count(&records, &record("u", "v", 3)), 1);
    assert_eq!(count(&records, &record("u", "v", 4)), 1);
    assert_eq!(count(&records, &record("v", "u", 3)), 1);
    assert_eq!(count(&records, &record("v", "u", 4)), 1);
}

#[test]
fn self_loop_puts_the_node_into_its_own_list_twice() {
    let mut graph = UndirectedGraph::new();
    graph.add_edge(("u", "u", 9));
    assert_eq!(owned(&graph), vec![record("u", "u", 9), record("u", "u", 9)]);
    assert_eq!(graph.nodes().len(), 1);
    graph.add_edge(("u", "u", 9));
    assert_eq!(count(&owned(&graph), &record("u", "u", 9)), 4);
}

#[test]
fn isolated_node_is_present_and_has_no_records() {
    let mut graph = UndirectedGraph::new();
    graph.add_edge(("a", "b", 1));
    assert!(graph.add_node("x"));
    assert!(graph.contains("x"));
    assert!(owned(&graph).iter().all(|(from, _, _)| from != "x"));
    assert!(owned(&graph).iter().all(|(_, to, _)| to != "x"));
    let neighbors = graph.adjacency_table().get("x");
    assert_eq!(neighbors, Some(&Vec::new()));
}

#[test]
fn any_weight_is_taken() {
    let mut graph = UndirectedGraph::new();
    graph.add_edge(("a", "b", 0));
    graph.add_edge(("a", "b", -7));
    graph.add_edge(("a", "b", i32::MAX));
    graph.add_edge(("a", "b", i32::MIN));
    let records = owned(&graph);
    assert_eq!(records.len(), 8);
    for weight in [0, -7, i32::MAX, i32::MIN] {
        assert_eq!(count(&records, &record("a", "b", weight)), 1);
        assert_eq!(count(&records, &record("b", "a", weight)), 1);
    }
}

#[test]
fn names_are_compared_exactly() {
    let mut graph = UndirectedGraph::new();
    graph.add_node("Node");
    assert!(graph.contains("Node"));
    assert!(!graph.contains("node"));
    assert!(!graph.contains("Node "));
    assert!(!graph.contains(""));
    graph.add_node("");
    assert!(graph.contains(""));
    assert_eq!(graph.nodes().len(), 2);
}

#[test]
fn earlier_edges_stay_when_more_are_added() {
    let mut graph = UndirectedGraph::new();
    graph.add_edge(("a", "b", 5));
    graph.add_node("z");
    graph.add_edge(("b", "c", 10));
    graph.add_edge(("z", "a", 1));
    let records = owned(&graph);
    assert_eq!(count(&records, &record("a", "b", 5)), 1);
    assert_eq!(count(&records, &record("b", "a", 5)), 1);
    assert_eq!(records.len(), 6);
}

#[test]
fn table_lists_nodes_in_order_of_arrival() {
    let mut graph = UndirectedGraph::new();
    graph.add_edge(("b", "a", 2));
    graph.add_node("c");
    let table = graph.adjacency_table();
    assert_eq!(table.len(), 3);
    let first = table.entry_at(0);
    assert_eq!(first, Some((&"b".to_string(), &vec![("a".to_string(), 2)])));
    let second = table.entry_at(1);
    assert_eq!(second, Some((&"a".to_string(), &vec![("b".to_string(), 2)])));
    let third = table.entry_at(2);
    assert_eq!(third, Some((&"c".to_string(), &Vec::new())));
    assert_eq!(table.entry_at(3), None);
    assert_eq!(table.entry_at(usize::MAX), None);
}

#[test]
fn table_lookup_finds_the_neighbor_list() {
    let mut graph = UndirectedGraph::new();
    graph.add_edge(("a", "b", 5));
    graph.add_edge(("a", "c", 6));
    let table = graph.adjacency_table();
    assert_eq!(
        table.get("a"),
        Some(&vec![("b".to_string(), 5), ("c".to_string(), 6)])
    );
    assert_eq!(table.get("c"), Some(&vec![("a".to_string(), 6)]));
    assert_eq!(table.get("d"), None);
}

#[test]
fn table_push_neighbor_needs_the_node() {
    let mut graph = UndirectedGraph::new();
    graph.add_node("a");
    let table = graph.adjacency_table_mutable();
    assert!(!table.push_neighbor("b", "a".to_string(), 1));
    assert_eq!(table.len(), 1);
    assert_eq!(table.get("a"), Some(&Vec::new()));
    assert!(table.push_neighbor("a", "b".to_string(), 1));
    assert_eq!(table.get("a"), Some(&vec![("b".to_string(), 1)]));
    assert_eq!(table.get("b"), None);
    assert_eq!(owned(&graph), vec![record("a", "b", 1)]);
}

#[test]
fn table_or_insert_empty_keeps_a_present_list() {
    let mut graph = UndirectedGraph::new();
    graph.add_edge(("a", "b", 5));
    let table = graph.adjacency_table_mutable();
    table.or_insert_empty("a");
    table.or_insert_empty("c");
    assert_eq!(table.len(), 3);
    assert_eq!(table.get("a"), Some(&vec![("b".to_string(), 5)]));
    assert_eq!(table.get("c"), Some(&Vec::new()));
}

#[test]
fn many_nodes_are_all_found() {
    let mut graph = UndirectedGraph::new();
    for i in 0..200 {
        let from = format!("n{}", i);
        let to = format!("n{}", i + 1);
        graph.add_edge((from.as_str(), to.as_str(), i));
    }
    assert_eq!(graph.nodes().len(), 201);
    assert_eq!(graph.edges().len(), 400);
    for i in 0..=200 {
        assert!(graph.contains(format!("n{}", i).as_str()));
    }
    assert!(!graph.contains("n201"));
    let records = owned(&graph);
    assert_eq!(count(&records, &record("n7", "n8", 7)), 1);
    assert_eq!(count(&records, &record("n8", "n7", 7)), 1);
}

#[test]
fn node_not_in_graph_says_what_went_wrong() {
    let error = NodeNotInGraph;
    assert_eq!(error.message(), "accessing a node that is not in the graph");
    assert_eq!(error.clone().message(), error.message());
    assert_eq!(format!("{:?}", error), "NodeNotInGraph");
}

use code_retriever::graph::{CodeGraph, EdgeType, NodeId, NodeType};
use code_retriever::paths::{PathBuilder, PathBuilderConfig, PathScorer, TraversalDirection};

fn node(graph: &mut CodeGraph, id: &NodeId, name: &str, file: &str, start: usize, end: usize) {
    graph.add_node(
        id.clone(),
        NodeType::Function,
        name.to_string(),
        None,
        None,
        Some(file.to_string()),
        start,
        end,
        Vec::new(),
    );
}

#[test]
fn respects_allowed_edge_types_and_branch_factor() {
    let mut graph = CodeGraph::default();
    let file = "f.rs";
    let a = NodeId("A".into());
    let b = NodeId("B".into());
    let c = NodeId("C".into());
    node(&mut graph, &a, "A", file, 1, 2);
    node(&mut graph, &b, "B", file, 3, 4);
    node(&mut graph, &c, "C", file, 5, 6);
    graph.add_edge(a.clone(), b.clone(), EdgeType::Calls);
    graph.add_edge(b.clone(), c.clone(), EdgeType::Imports);

    let builder = PathBuilder::new(&graph);
    let mut cfg = PathBuilderConfig::default();
    cfg.max_length = 3;
    cfg.max_paths = 5;
    cfg.branch_factor = 1;
    cfg.allowed_edge_types = Some(vec![EdgeType::Calls]);
    let paths = builder.find_paths(&a, &cfg);

    assert_eq!(paths.len(), 1, "only calls edge should be followed");
    assert_eq!(paths[0].edges.len(), 1);
    assert_eq!(paths[0].edges[0].kind, EdgeType::Calls);
    assert_eq!(paths[0].nodes[0].name, "A");
    assert_eq!(paths[0].nodes[1].name, "B");
}

#[test]
fn find_paths_follows_chains_without_revisiting() {
    let mut graph = CodeGraph::default();
    let a = NodeId("A".into());
    let b = NodeId("B".into());
    let c = NodeId("C".into());
    node(&mut graph, &a, "A", "x.rs", 1, 2);
    node(&mut graph, &b, "B", "y.rs", 1, 2);
    node(&mut graph, &c, "C", "y.rs", 3, 4);
    graph.add_edge(a.clone(), b.clone(), EdgeType::Calls);
    graph.add_edge(b.clone(), c.clone(), EdgeType::Calls);
    graph.add_edge(c.clone(), a.clone(), EdgeType::Calls);
    let builder = PathBuilder::new(&graph);
    let mut cfg = PathBuilderConfig::default();
    cfg.direction = TraversalDirection::Forward;
    let paths = builder.find_paths(&a, &cfg);
    let keys: Vec<String> = paths
        .iter()
        .map(|p| p.nodes.iter().map(|n| n.node_id.clone()).collect::<Vec<_>>().join("->"))
        .collect();
    assert_eq!(keys, vec!["A->B".to_string(), "A->B->C".to_string()]);
    assert_eq!(paths[0].id, "path_A_2");
    // one edge, two files, one call: 10 + 10 + 5 tenths
    assert_eq!(paths[0].score, 25);
    assert_eq!(PathScorer::score(&paths[1]), paths[1].score);
}

#[test]
fn find_paths_from_unknown_node_is_empty() {
    let graph = CodeGraph::default();
    let builder = PathBuilder::new(&graph);
    let cfg = PathBuilderConfig::default();
    assert!(builder.find_paths(&NodeId("nope".into()), &cfg).is_empty());
}

#[test]
fn max_paths_stops_the_search() {
    let mut graph = CodeGraph::default();
    let hub = NodeId("H".into());
    node(&mut graph, &hub, "H", "h.rs", 1, 1);
    for i in 0..4 {
        let id = NodeId(format!("N{}", i));
        node(&mut graph, &id, &format!("N{}", i), "h.rs", 2 + i, 2 + i);
        graph.add_edge(hub.clone(), id, EdgeType::Calls);
    }
    let builder = PathBuilder::new(&graph);
    let mut cfg = PathBuilderConfig::default();
    cfg.max_paths = 2;
    let paths = builder.find_paths(&hub, &cfg);
    assert_eq!(paths.len(), 2);
}

#[test]
fn bidirectional_search_joins_at_the_end() {
    let mut graph = CodeGraph::default();
    let a = NodeId("A".into());
    let b = NodeId("B".into());
    let c = NodeId("C".into());
    node(&mut graph, &a, "A", "f.rs", 1, 2);
    node(&mut graph, &b, "B", "f.rs", 3, 4);
    node(&mut graph, &c, "C", "f.rs", 5, 6);
    graph.add_edge(a.clone(), b.clone(), EdgeType::Calls);
    graph.add_edge(b.clone(), c.clone(), EdgeType::Calls);
    let builder = PathBuilder::new(&graph);
    let cfg = PathBuilderConfig::default();
    let paths = builder.find_paths_bidirectional(&a, &c, &cfg);
    assert_eq!(paths.len(), 1);
    let ids: Vec<&str> = paths[0].nodes.iter().map(|n| n.node_id.as_str()).collect();
    assert_eq!(ids, vec!["A", "B", "C"]);
    assert_eq!(paths[0].edges.len(), 2);
    assert!(builder.find_paths_bidirectional(&a, &a, &cfg).is_empty());
    assert!(builder.find_paths_bidirectional(&a, &NodeId("Z".into()), &cfg).is_empty());
}

#[test]
fn edge_weights() {
    assert_eq!(PathScorer::edge_weight(&EdgeType::Calls), 500);
    assert_eq!(PathScorer::edge_weight(&EdgeType::DefinedIn), 200);
    assert_eq!(PathScorer::edge_weight(&EdgeType::Imports), 0);
}

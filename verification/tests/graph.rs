use code_retriever::builder::GraphBuilder;
use code_retriever::graph::{CodeGraph, EdgeType, NodeId, NodeType};
use code_retriever::models::{Chunk, Language};
use code_retriever::symbols::{Symbol, SymbolKind};

fn sym(id: &str, name: &str, kind: SymbolKind, file: &str, start: usize, end: usize) -> Symbol {
    Symbol {
        id: id.to_string(),
        name: name.to_string(),
        kind,
        language: Language::Java,
        file_path: file.to_string(),
        start_line: start,
        end_line: end,
        fqn: String::new(),
        visibility: None,
        chunk_ids: Vec::new(),
        chunk_id: None,
    }
}

fn has_edge(g: &CodeGraph, s: &str, t: &str, k: EdgeType) -> bool {
    g.edges.iter().any(|e| e.source.0 == s && e.target.0 == t && e.kind == k)
}

#[test]
fn add_node_then_get_node_reads_it_back() {
    let mut g = CodeGraph::new();
    let id = NodeId("n1".into());
    g.add_node(id.clone(), NodeType::Class, "C".into(), Some("m::C".into()), Some(Language::Rust), Some("m.rs".into()), 3, 9, vec!["c1".into()]);
    let n = g.get_node(&id).unwrap();
    assert_eq!(n.label, "C");
    assert_eq!(n.kind, NodeType::Class);
    assert_eq!(n.start_line, 3);
    assert_eq!(n.end_line, 9);
    assert_eq!(n.chunk_ids, vec!["c1".to_string()]);
    // a second insert with the same id replaces the node in place
    g.add_node(id.clone(), NodeType::Function, "F".into(), None, None, None, 1, 1, Vec::new());
    assert_eq!(g.nodes.len(), 1);
    assert_eq!(g.get_node(&id).unwrap().label, "F");
    assert!(g.get_node(&NodeId("other".into())).is_none());
    assert!(g.contains_node(&id));
}

#[test]
fn add_edge_appends_with_full_confidence() {
    let mut g = CodeGraph::new();
    g.add_edge(NodeId("a".into()), NodeId("b".into()), EdgeType::Calls);
    g.add_edge(NodeId("a".into()), NodeId("b".into()), EdgeType::Calls);
    assert_eq!(g.edges.len(), 2);
    assert_eq!(g.edges[0].confidence, 100);
    g.clear();
    assert!(g.edges.is_empty() && g.nodes.is_empty());
}

#[test]
fn find_node_for_chunk_prefers_functions() {
    let mut g = CodeGraph::new();
    g.add_node(NodeId("file".into()), NodeType::File, "a.py".into(), None, None, Some("a.py".into()), 1, 100, Vec::new());
    g.add_node(NodeId("cls".into()), NodeType::Class, "C".into(), None, None, Some("a.py".into()), 1, 50, Vec::new());
    g.add_node(NodeId("fn".into()), NodeType::Function, "f".into(), None, None, Some("a.py".into()), 10, 12, Vec::new());
    let chunk = Chunk {
        id: "x".into(),
        language: Language::Python,
        file_path: "a.py".into(),
        start_line: 10,
        end_line: 20,
        start_byte: None,
        end_byte: None,
        node_type: "function_definition".into(),
        content_hash: String::new(),
        content: String::new(),
        parent_scope: None,
        scope_path: Vec::new(),
    };
    // file: 11 lines; class: 11 + 500; function: 3 + 1000
    assert_eq!(g.find_node_for_chunk(&chunk).unwrap().0, "fn");
    let mut other = chunk.clone();
    other.file_path = "b.py".into();
    assert!(g.find_node_for_chunk(&other).is_none());
}

#[test]
fn build_links_symbols_to_files_and_classes() {
    let mut g = CodeGraph::new();
    let symbols = vec![
        sym("A.java:A:1", "A", SymbolKind::Class, "A.java", 1, 20),
        sym("A.java:run:3", "run", SymbolKind::Method, "A.java", 3, 5),
        sym("B.java:stray:1", "stray", SymbolKind::Method, "B.java", 1, 2),
    ];
    GraphBuilder::build(&mut g, &symbols);
    // three symbol nodes and two file nodes
    assert_eq!(g.nodes.len(), 5);
    let file = g.get_node(&NodeId("A.java".into())).unwrap();
    assert_eq!(file.kind, NodeType::File);
    assert_eq!(file.label, "A.java");
    assert!(has_edge(&g, "A.java:run:3", "A.java", EdgeType::DefinedIn));
    assert!(has_edge(&g, "A.java", "A.java:run:3", EdgeType::DefinedIn));
    assert!(has_edge(&g, "A.java:run:3", "A.java:A:1", EdgeType::MemberOf));
    assert!(!g.edges.iter().any(|e| e.source.0 == "B.java:stray:1" && e.kind == EdgeType::MemberOf));
    let n = g.edges.len();
    // building again adds no edge twice
    GraphBuilder::build(&mut g, &symbols);
    assert_eq!(g.edges.len(), n);
    assert_eq!(g.nodes.len(), 5);
}

#[test]
fn prune_files_drops_nodes_and_dangling_edges() {
    let mut g = CodeGraph::new();
    let symbols = vec![
        sym("A.java:A:1", "A", SymbolKind::Class, "A.java", 1, 20),
        sym("B.java:B:1", "B", SymbolKind::Class, "B.java", 1, 20),
    ];
    GraphBuilder::build(&mut g, &symbols);
    g.add_edge(NodeId("A.java:A:1".into()), NodeId("B.java:B:1".into()), EdgeType::Calls);
    GraphBuilder::prune_files(&mut g, &["B.java".to_string()]);
    assert!(g.get_node(&NodeId("B.java:B:1".into())).is_none());
    assert!(g.get_node(&NodeId("B.java".into())).is_none());
    assert!(g.get_node(&NodeId("A.java:A:1".into())).is_some());
    assert!(!has_edge(&g, "A.java:A:1", "B.java:B:1", EdgeType::Calls));
    assert!(has_edge(&g, "A.java:A:1", "A.java", EdgeType::DefinedIn));
}

#[test]
fn as_petgraph_keeps_edges_between_nodes() {
    let mut g = CodeGraph::new();
    g.add_node(NodeId("a".into()), NodeType::Function, "a".into(), None, None, None, 1, 1, Vec::new());
    g.add_node(NodeId("b".into()), NodeType::Function, "b".into(), None, None, None, 1, 1, Vec::new());
    g.add_edge(NodeId("a".into()), NodeId("b".into()), EdgeType::Calls);
    g.add_edge(NodeId("a".into()), NodeId("missing".into()), EdgeType::Calls);
    let pg = g.as_petgraph();
    assert_eq!(pg.node_count(), 2);
    assert_eq!(pg.edge_count(), 1);
}

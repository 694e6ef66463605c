use code_retriever::graph::{CodeGraph, EdgeType, NodeId, NodeType};
use code_retriever::graph_context::{graph_proximity, related_paths};
use code_retriever::models::{Chunk, Language};
use code_retriever::summary_search::{summary_covers, SummaryIndex, SummaryRecord};
use code_retriever::config::SummaryLevel;
use code_retriever::symbol_index::SymbolIndex;
use code_retriever::symbols::{Symbol, SymbolKind};

fn node(graph: &mut CodeGraph, id: &str, file: &str) {
    graph.add_node(
        NodeId(id.to_string()),
        NodeType::Function,
        id.to_string(),
        None,
        None,
        Some(file.to_string()),
        1,
        10,
        Vec::new(),
    );
}

fn chunk(file: &str, start: usize, end: usize) -> Chunk {
    Chunk {
        id: format!("{}:{}", file, start),
        language: Language::Python,
        file_path: file.into(),
        start_line: start,
        end_line: end,
        start_byte: None,
        end_byte: None,
        node_type: String::new(),
        content_hash: String::new(),
        content: String::new(),
        parent_scope: None,
        scope_path: Vec::new(),
    }
}

fn symbol(name: &str, file: &str) -> Symbol {
    Symbol {
        id: name.to_string(),
        name: name.to_string(),
        kind: SymbolKind::Function,
        language: Language::Python,
        file_path: file.to_string(),
        start_line: 1,
        end_line: 10,
        fqn: name.to_string(),
        visibility: None,
        chunk_ids: Vec::new(),
        chunk_id: None,
    }
}

#[test]
fn proximity_measures_steps_to_the_best_results() {
    let mut g = CodeGraph::new();
    node(&mut g, "A", "x.rs");
    node(&mut g, "B", "y.rs");
    g.add_edge(NodeId("B".into()), NodeId("A".into()), EdgeType::Calls);
    let mut chunks = vec![chunk("x.rs", 2, 3); 5];
    chunks.push(chunk("y.rs", 2, 3));
    chunks.push(chunk("w.rs", 2, 3));
    let near = graph_proximity(&g, &chunks);
    assert_eq!(near.len(), 7);
    assert_eq!(near[0].map(|p| p.0), Some(0));
    assert_eq!(near[5], Some((1, false)));
    assert_eq!(near[6], None);
}

#[test]
fn proximity_is_empty_without_seeds() {
    let mut g = CodeGraph::new();
    node(&mut g, "A", "x.rs");
    let chunks = vec![chunk("other.rs", 1, 2), chunk("x.rs", 1, 2)];
    // The first result claims no node, the second does: it is a seed.
    let near = graph_proximity(&g, &chunks);
    assert_eq!(near, vec![None, Some((0, near[1].unwrap().1))]);
    let none = graph_proximity(&g, &[chunk("other.rs", 1, 2)]);
    assert_eq!(none, vec![None]);
}

#[test]
fn related_paths_start_at_seeds_and_hits() {
    let mut g = CodeGraph::new();
    node(&mut g, "A", "x.rs");
    node(&mut g, "B", "y.rs");
    node(&mut g, "C", "z.rs");
    g.add_edge(NodeId("A".into()), NodeId("B".into()), EdgeType::Calls);
    g.add_edge(NodeId("C".into()), NodeId("A".into()), EdgeType::Calls);
    let index = SymbolIndex::new("idx.json");
    let from_seed = related_paths(&g, &[chunk("x.rs", 2, 3)], &index, "nothing");
    assert!(!from_seed.is_empty());
    assert!(from_seed.iter().all(|p| p.nodes[0].node_id == "A"));
    assert!(from_seed.len() <= 10);
    for w in from_seed.windows(2) {
        assert!(w[0].score >= w[1].score);
        assert_ne!(w[0].id, w[1].id);
    }
    let mut index = SymbolIndex::new("idx.json");
    index.add_symbols(vec![symbol("C", "z.rs")]);
    let with_hit = related_paths(&g, &[], &index, "C");
    assert!(!with_hit.is_empty());
    assert!(with_hit.iter().all(|p| p.nodes[0].node_id == "C"));
    let none = related_paths(&g, &[], &SymbolIndex::new("idx.json"), "C");
    assert!(none.is_empty());
}

#[test]
fn summaries_cover_overlapping_lines_of_the_same_file() {
    let s = SummaryRecord {
        id: "s".into(),
        level: SummaryLevel::Function,
        target_id: "t".into(),
        text: String::new(),
        file_path: Some("a.py".into()),
        start_line: Some(5),
        end_line: Some(9),
        language: None,
    };
    assert!(summary_covers(&chunk("a.py", 9, 12), &s));
    assert!(summary_covers(&chunk("a.py", 1, 5), &s));
    assert!(!summary_covers(&chunk("a.py", 10, 12), &s));
    assert!(!summary_covers(&chunk("b.py", 5, 9), &s));
    let open = SummaryRecord { end_line: None, ..s };
    assert!(!summary_covers(&chunk("a.py", 5, 9), &open));
}

fn summary(id: &str, text: &str) -> SummaryRecord {
    SummaryRecord {
        id: id.into(),
        level: SummaryLevel::File,
        target_id: id.into(),
        text: text.into(),
        file_path: None,
        start_line: None,
        end_line: None,
        language: None,
    }
}

#[test]
fn summary_index_keeps_one_summary_per_id() {
    let mut index = SummaryIndex::new("summaries.json");
    assert_eq!(index.path(), "summaries.json");
    index.add_summary(summary("a", "first"));
    index.add_summary(summary("b", "second"));
    index.add_summary(summary("a", "replaced"));
    assert_eq!(index.summaries().len(), 2);
    assert_eq!(index.summaries()[0].text, "replaced");
    assert_eq!(index.get_summary("a").map(|s| s.text.clone()), Some("replaced".to_string()));
    assert_eq!(index.get_summary("b").map(|s| s.text.clone()), Some("second".to_string()));
    assert!(index.get_summary("c").is_none());
    index.clear();
    assert!(index.summaries().is_empty());
    assert!(index.get_summary("a").is_none());
}

#[test]
fn languages_parse_by_name() {
    assert_eq!("Python".parse::<Language>(), Ok(Language::Python));
    assert_eq!("nonsense".parse::<Language>(), Ok(Language::Unknown));
}

#[test]
fn summaries_of_files_are_dropped() {
    let mut index = SummaryIndex::new("summaries.json");
    let mut a = summary("a", "one");
    a.file_path = Some("x.py".into());
    let mut b = summary("b", "two");
    b.file_path = Some("y.py".into());
    index.add_summary(a);
    index.add_summary(b);
    index.add_summary(summary("c", "three"));
    index.remove_by_files(&vec!["x.py".to_string()]);
    let ids: Vec<&str> = index.summaries().iter().map(|s| s.id.as_str()).collect();
    assert_eq!(ids, vec!["b", "c"]);
}

use code_retriever::agent::{llm_settings, max_steps, tool_call_candidates, AgentDepth, AgentOptions, SettingsError};
use code_retriever::config::{ChunkingConfig, SplitStrategy};
use code_retriever::distance::shortest_distance_to_seeds;
use code_retriever::features::FeatureExtractor;
use code_retriever::graph::{CodeGraph, EdgeType, NodeId, NodeType};
use code_retriever::models::{Chunk, Language};
use code_retriever::paths::{Path, PathNode};
use code_retriever::scanner::{scan_files, scanned_language};
use code_retriever::seeds::SeedSelector;
use code_retriever::symbol_index::SymbolIndex;
use code_retriever::symbols::{Symbol, SymbolKind};
use code_retriever::tools::{grep_report, path_report, references_report, symbol_report, GrepTool, ListDirTool, ReadCodeTool, ReferencesTool, SymbolTool};
use std::sync::Arc;

fn sym(name: &str, file: &str, line: usize) -> Symbol {
    Symbol {
        id: format!("{}:{}:{}", file, name, line),
        name: name.to_string(),
        kind: SymbolKind::Function,
        language: Language::Python,
        file_path: file.to_string(),
        start_line: line,
        end_line: line + 1,
        fqn: name.to_string(),
        visibility: None,
        chunk_ids: Vec::new(),
        chunk_id: None,
    }
}

fn chunk(file: &str, start: usize, end: usize) -> Chunk {
    Chunk {
        id: String::new(),
        language: Language::Python,
        file_path: file.into(),
        start_line: start,
        end_line: end,
        start_byte: None,
        end_byte: None,
        node_type: String::new(),
        content_hash: String::new(),
        content: String::new(),
        parent_scope: None,
        scope_path: Vec::new(),
    }
}

#[test]
fn language_from_extension_and_name() {
    assert_eq!(Language::from_extension("tsx"), Language::TypeScript);
    assert_eq!(Language::from_extension("hh"), Language::Cpp);
    assert_eq!(Language::from_extension("txt"), Language::Unknown);
    assert_eq!(Language::from_name("Python"), Language::Python);
    assert_eq!(Language::from_name("C#"), Language::CSharp);
    assert_eq!(Language::from_name("GoLang"), Language::Go);
    assert_eq!(Language::from_name("cobol"), Language::Unknown);
}

#[test]
fn chunking_defaults() {
    let c = ChunkingConfig::default();
    assert_eq!(c.max_tokens, 512);
    assert_eq!(c.overlap_tokens, 50);
    assert_eq!(c.split_strategy, SplitStrategy::Split);
    assert!(c.use_cast_chunking);
    assert_eq!(c.max_chars, 2000);
}

#[test]
fn symbol_index_search_after_add() {
    let mut idx = SymbolIndex::new("idx.json");
    idx.add_symbols(vec![sym("f", "a.py", 1), sym("g", "a.py", 5), sym("f", "b.py", 2)]);
    let found = idx.search("f");
    assert_eq!(found.len(), 2);
    assert_eq!(found[0].file_path, "a.py");
    assert_eq!(found[1].file_path, "b.py");
    idx.add_symbols(vec![sym("f", "c.py", 3)]);
    assert_eq!(idx.search("f").len(), 3);
    assert_eq!(idx.search("f")[2].file_path, "c.py");
    assert!(idx.search("h").is_empty());
    assert_eq!(idx.path(), "idx.json");
    idx.clear();
    assert!(idx.search("f").is_empty());
}

#[test]
fn features_read_matches() {
    let mut idx = SymbolIndex::new("i");
    idx.add_symbols(vec![sym("parse", "a.py", 1)]);
    let fx = FeatureExtractor::new(Some(&idx));
    assert!(fx.exact_match("parse", "fn parse()"));
    assert!(fx.symbol_match("parse", "x = parse(y)"));
    assert!(!fx.symbol_match("other", "other"));
    let none = FeatureExtractor::new(None);
    assert!(!none.symbol_match("parse", "parse"));
}

#[test]
fn seeds_pick_covering_nodes_once() {
    let mut g = CodeGraph::new();
    g.add_node(NodeId("cls".into()), NodeType::Class, "C".into(), None, None, Some("a.py".into()), 1, 30, Vec::new());
    g.add_node(NodeId("fn".into()), NodeType::Function, "f".into(), None, None, Some("a.py".into()), 5, 9, Vec::new());
    let chunks = vec![chunk("a.py", 5, 9), chunk("a.py", 6, 7), chunk("a.py", 20, 25), chunk("b.py", 1, 2)];
    let seeds = SeedSelector::select_seeds(&g, &chunks, 10);
    let ids: Vec<&str> = seeds.iter().map(|s| s.0.as_str()).collect();
    assert_eq!(ids, vec!["fn", "cls"]);
    assert_eq!(SeedSelector::select_seeds(&g, &chunks, 1).len(), 1);
}

#[test]
fn agent_options_and_depth() {
    let o = AgentOptions::default();
    assert!(o.top.is_none() && !o.with_summaries);
    assert_eq!(o.depth, AgentDepth::Default);
    assert_eq!(max_steps(AgentDepth::Shallow), 3);
    assert_eq!(max_steps(AgentDepth::Default), 6);
    assert_eq!(max_steps(AgentDepth::Deep), 12);
}

#[test]
fn tool_call_candidates_in_order() {
    let c = tool_call_candidates("  I will call {\"tool\": \"grep\", \"args\": {\"pattern\": \"x\"}} now {bad  ");
    assert_eq!(
        c,
        vec![
            "I will call {\"tool\": \"grep\", \"args\": {\"pattern\": \"x\"}} now {bad".to_string(),
            "{\"tool\": \"grep\", \"args\": {\"pattern\": \"x\"}}".to_string(),
        ]
    );
    assert!(tool_call_candidates("   ").is_empty());
    assert_eq!(tool_call_candidates("}{a}{b}").len(), 3);
}

#[test]
fn llm_settings_defaults_and_refusal() {
    let (k, m, e) = llm_settings(None, None, None, None).unwrap();
    assert_eq!(k, "dummy");
    assert_eq!(m, "qwen2.5-coder:1.5b");
    assert_eq!(e, "http://localhost:11434/v1/chat/completions");
    let (k, m, e) = llm_settings(Some("sk".into()), None, Some("env-model".into()), None).unwrap();
    assert_eq!(k, "sk");
    assert_eq!(m, "env-model");
    assert_eq!(e, "https://api.openai.com/v1/chat/completions");
    let (_, m, e) = llm_settings(None, Some("http://h/v1///".into()), Some("env".into()), Some("mine".into())).unwrap();
    assert_eq!(m, "mine");
    assert_eq!(e, "http://h/v1/chat/completions");
    let (_, _, e) = llm_settings(None, Some("http://h/chat/completions".into()), None, None).unwrap();
    assert_eq!(e, "http://h/chat/completions");
    assert_eq!(
        llm_settings(None, Some("https://api.openai.com/v1".into()), None, None).unwrap_err(),
        SettingsError::MissingOpenAiKey
    );
}

#[test]
fn scanner_keeps_known_languages() {
    assert_eq!(scanned_language("src/main.rs"), Some(Language::Rust));
    assert_eq!(scanned_language("README.md"), None);
    assert_eq!(scanned_language("Makefile"), None);
    let files = scan_files(&vec!["a.py".into(), "b.txt".into(), "c/d.java".into()]);
    let got: Vec<(&str, Language)> = files.iter().map(|f| (f.path.as_str(), f.language)).collect();
    assert_eq!(got, vec![("a.py", Language::Python), ("c/d.java", Language::Java)]);
}

#[test]
fn tool_reports() {
    let _ = (ReadCodeTool::new(), GrepTool::new(), ReferencesTool::new(), ListDirTool::new());
    let st = SymbolTool::new(Arc::new(SymbolIndex::new("i")));
    assert!(st.index.search("x").is_empty());
    assert_eq!(grep_report(&vec![]), "No matches found.");
    let ms: Vec<(String, usize, String)> = (1..=22).map(|i| ("f.rs".to_string(), i, format!("  line {}  ", i))).collect();
    let r = grep_report(&ms);
    assert!(r.starts_with("Found 22 matches:\nf.rs:1: line 1\n"));
    assert!(r.ends_with("f.rs:20: line 20\n... (more matches truncated)\n"));
    assert_eq!(references_report("foo", &vec![]), "No references found for 'foo'.");
    let one = vec![("a.rs".to_string(), 3, "foo()".to_string())];
    assert_eq!(references_report("foo", &one), "Found 1 references to 'foo':\na.rs:3: foo()\n");
    let s = sym("f", "a.py", 2);
    assert_eq!(symbol_report("f", &vec![&s]), "Symbol: f\nKind: Function\nFile: a.py:2-3\n\n");
    assert_eq!(symbol_report("zz", &vec![]), "Symbol 'zz' not found.");
    let p = Path::new(
        vec![
            PathNode { node_id: "A".into(), kind: NodeType::Function, name: "A".into(), file_path: String::new(), start_line: 1, end_line: 1 },
            PathNode { node_id: "B".into(), kind: NodeType::Function, name: "B".into(), file_path: String::new(), start_line: 2, end_line: 2 },
        ],
        Vec::new(),
    );
    assert_eq!(path_report(&vec![p]), "Found 1 paths:\nPath #1:\nA -> B\n");
    assert_eq!(path_report(&vec![]), "No path found.");
}

#[test]
fn distance_to_seeds_by_breadth_first_search() {
    let mut g = CodeGraph::new();
    for id in ["a", "b", "c", "d"] {
        g.add_node(NodeId(id.into()), NodeType::Function, id.into(), None, None, None, 1, 1, Vec::new());
    }
    g.add_edge(NodeId("a".into()), NodeId("b".into()), EdgeType::Calls);
    g.add_edge(NodeId("b".into()), NodeId("c".into()), EdgeType::Calls);
    let pg = g.as_petgraph();
    assert_eq!(shortest_distance_to_seeds(&pg, 0, &vec![2], 4), Some(2));
    assert_eq!(shortest_distance_to_seeds(&pg, 0, &vec![0], 4), Some(0));
    assert_eq!(shortest_distance_to_seeds(&pg, 0, &vec![2], 1), None);
    assert_eq!(shortest_distance_to_seeds(&pg, 0, &vec![3], 4), None);
    assert_eq!(shortest_distance_to_seeds(&pg, 9, &vec![9], 4), Some(0));
}

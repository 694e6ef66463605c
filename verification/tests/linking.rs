use code_retriever::builder::GraphBuilder;
use code_retriever::graph::{CodeGraph, EdgeType, NodeId, NodeType};
use code_retriever::models::Language;
use code_retriever::refs::{extract_call_names, extract_import_refs, tokenize_defs_and_uses};
use code_retriever::symbols::{SymbolExtractor, SymbolKind};

const A_PY: &str = "import b\ndef main():\n    helper()\n";
const B_PY: &str = "def helper():\n    x = 1\n    return x\n";

fn edge(g: &CodeGraph, s: &str, t: &str, k: EdgeType) -> Option<u8> {
    g.edges.iter().find(|e| e.source.0 == s && e.target.0 == t && e.kind == k).map(|e| e.confidence)
}

#[test]
fn extracts_python_symbols() {
    let syms = SymbolExtractor::extract(B_PY, "pkg/b.py", Language::Python).unwrap();
    assert_eq!(syms.len(), 1);
    assert_eq!(syms[0].name, "helper");
    assert_eq!(syms[0].kind, SymbolKind::Function);
    assert_eq!(syms[0].start_line, 1);
    assert_eq!(syms[0].end_line, 3);
    assert_eq!(syms[0].id, "pkg/b.py:helper:1");
    assert_eq!(syms[0].fqn, "pkg::b::helper");
    let none = SymbolExtractor::extract("fn main() {}", "m.rs", Language::Rust).unwrap();
    assert!(none.is_empty());
}

#[test]
fn extracts_python_classes_and_methods() {
    let src = "class Bar:\n    def baz(self):\n        pass\n";
    let syms = SymbolExtractor::extract(src, "m.py", Language::Python).unwrap();
    let names: Vec<(&str, SymbolKind)> = syms.iter().map(|s| (s.name.as_str(), s.kind)).collect();
    assert_eq!(names, vec![("Bar", SymbolKind::Class), ("baz", SymbolKind::Function)]);
}

#[test]
fn symbol_kind_from_label() {
    assert_eq!(SymbolKind::from("method"), SymbolKind::Method);
    assert_eq!(SymbolKind::from("interface"), SymbolKind::Interface);
    assert_eq!(SymbolKind::from("struct"), SymbolKind::Unknown);
}

#[test]
fn finds_calls_with_lines_and_qualifiers() {
    let calls = extract_call_names("def f():\n    os.path.join(a)\n    g()\n", Language::Python);
    let got: Vec<(String, usize, Option<String>)> =
        calls.iter().map(|c| (c.name.clone(), c.line, c.qualifier.clone())).collect();
    assert!(got.contains(&("g".to_string(), 3, None)));
    assert!(got.contains(&("join".to_string(), 2, Some("os".to_string()))));
    assert!(extract_call_names("x", Language::Unknown).is_empty());
}

#[test]
fn reads_imports_by_language() {
    let py = extract_import_refs("from os import path\n  import sys\nx = 1\n", Language::Python);
    let py: Vec<(String, Option<String>)> = py.into_iter().map(|i| (i.module, i.alias)).collect();
    assert_eq!(py, vec![("os".to_string(), Some("path".to_string())), ("sys".to_string(), None)]);

    let ts = extract_import_refs(
        "import React from 'react';\nimport { foo } from \"./lib/util\";\nconst b = require('./a/b');\nimport './side';\n",
        Language::TypeScript,
    );
    let ts: Vec<(String, Option<String>)> = ts.into_iter().map(|i| (i.module, i.alias)).collect();
    assert_eq!(
        ts,
        vec![
            ("react".to_string(), Some("React".to_string())),
            ("util".to_string(), Some(String::new())),
            ("b".to_string(), None),
            ("'./side'".to_string(), None),
        ]
    );

    let java = extract_import_refs("import java.util.List;\nclass A {}\n", Language::Java);
    assert_eq!(java.len(), 1);
    assert_eq!(java[0].module, "java.util.List");

    let cpp = extract_import_refs("#include <vector>\n#include \"a.h\"\n", Language::Cpp);
    let cpp: Vec<String> = cpp.into_iter().map(|i| i.module).collect();
    assert_eq!(cpp, vec!["vector".to_string(), "a.h".to_string()]);

    assert!(extract_import_refs("import x", Language::Go).is_empty());
}

#[test]
fn tokenizes_definitions_and_uses() {
    let (d, u) = tokenize_defs_and_uses("a.b = c + 1", Language::Python);
    assert_eq!(d, vec!["b".to_string()]);
    assert_eq!(u, vec!["a.b".to_string(), "c".to_string(), "1".to_string()]);
    let (d, _) = tokenize_defs_and_uses("let mut count = 0;", Language::Rust);
    assert_eq!(d, vec!["mut".to_string()]);
    let (d, u) = tokenize_defs_and_uses("  return x", Language::Java);
    assert!(d.is_empty());
    assert_eq!(u, vec!["return".to_string(), "x".to_string()]);
    let (d, _) = tokenize_defs_and_uses("   = 3", Language::Python);
    assert!(d.is_empty());
}

#[test]
fn links_calls_imports_and_data_flow() {
    let mut syms = SymbolExtractor::extract(A_PY, "a.py", Language::Python).unwrap();
    syms.extend(SymbolExtractor::extract(B_PY, "b.py", Language::Python).unwrap());
    let mut g = CodeGraph::new();
    GraphBuilder::build(&mut g, &syms);
    let files = vec![
        ("a.py".to_string(), Language::Python, A_PY.to_string()),
        ("b.py".to_string(), Language::Python, B_PY.to_string()),
    ];
    GraphBuilder::build_calls_and_imports(&mut g, &syms, &files);
    assert_eq!(edge(&g, "a.py:main:2", "b.py:helper:1", EdgeType::Calls), Some(50));
    assert_eq!(edge(&g, "a.py", "b.py", EdgeType::Imports), Some(100));
    let var = g.get_node(&NodeId("b.py:x:2:var".into())).unwrap();
    assert_eq!(var.kind, NodeType::Variable);
    assert_eq!(var.label, "x");
    assert_eq!(var.start_line, 2);
    assert!(edge(&g, "b.py:x:2:var", "b.py:helper:1", EdgeType::DataFlow).is_some());
    assert!(edge(&g, "b.py:x:2:var", "b.py", EdgeType::DefinedIn).is_some());
    assert!(edge(&g, "b.py:x:2:var", "b.py:helper:1", EdgeType::MemberOf).is_some());
    assert!(edge(&g, "b.py:x:2:var", "b.py:x:3:use", EdgeType::DataFlow).is_some());
    assert!(edge(&g, "b.py:x:3:use", "b.py:helper:1", EdgeType::MemberOf).is_some());
    let n = g.edges.len();
    GraphBuilder::build_calls_and_imports(&mut g, &syms, &files);
    assert_eq!(g.edges.len(), n);
}

#[test]
fn same_file_callee_wins_with_full_confidence() {
    let src = "def helper():\n    pass\ndef main():\n    helper()\n";
    let other = "def helper():\n    pass\n";
    let mut syms = SymbolExtractor::extract(src, "a.py", Language::Python).unwrap();
    syms.extend(SymbolExtractor::extract(other, "c.py", Language::Python).unwrap());
    let mut g = CodeGraph::new();
    GraphBuilder::build(&mut g, &syms);
    let files = vec![("a.py".to_string(), Language::Python, src.to_string())];
    GraphBuilder::build_calls_and_imports(&mut g, &syms, &files);
    assert_eq!(edge(&g, "a.py:main:3", "a.py:helper:1", EdgeType::Calls), Some(100));
    assert_eq!(edge(&g, "a.py:main:3", "c.py:helper:1", EdgeType::Calls), None);
}

#[test]
fn bodies_fit_check_finds_bodies_past_their_end() {
    let mut syms = SymbolExtractor::extract(B_PY, "b.py", Language::Python).unwrap();
    let files = vec![("b.py".to_string(), Language::Python, B_PY.to_string())];
    assert!(code_retriever::linking::bodies_fit_check(&syms, &files));
    // a body starting at line 9 of a three-line file starts after it ends
    syms[0].start_line = 9;
    assert!(!code_retriever::linking::bodies_fit_check(&syms, &files));
    // a symbol of another file does not count
    syms[0].file_path = "c.py".into();
    assert!(code_retriever::linking::bodies_fit_check(&syms, &files));
}

#[test]
fn linking_twice_changes_nothing() {
    let mut syms = SymbolExtractor::extract(A_PY, "a.py", Language::Python).unwrap();
    syms.extend(SymbolExtractor::extract(B_PY, "b.py", Language::Python).unwrap());
    let mut g = CodeGraph::new();
    GraphBuilder::build(&mut g, &syms);
    let files = vec![
        ("a.py".to_string(), Language::Python, A_PY.to_string()),
        ("b.py".to_string(), Language::Python, B_PY.to_string()),
    ];
    GraphBuilder::build_calls_and_imports(&mut g, &syms, &files);
    let nodes: Vec<String> = g.nodes.iter().map(|n| n.id.0.clone()).collect();
    let edges: Vec<(String, String, EdgeType, u8)> =
        g.edges.iter().map(|e| (e.source.0.clone(), e.target.0.clone(), e.kind, e.confidence)).collect();
    GraphBuilder::build_calls_and_imports(&mut g, &syms, &files);
    let nodes2: Vec<String> = g.nodes.iter().map(|n| n.id.0.clone()).collect();
    let edges2: Vec<(String, String, EdgeType, u8)> =
        g.edges.iter().map(|e| (e.source.0.clone(), e.target.0.clone(), e.kind, e.confidence)).collect();
    assert_eq!(nodes, nodes2);
    assert_eq!(edges, edges2);
    // no two edges share source, target and kind
    for i in 0..edges.len() {
        for j in 0..edges.len() {
            if i != j {
                assert!(!(edges[i].0 == edges[j].0 && edges[i].1 == edges[j].1 && edges[i].2 == edges[j].2));
            }
        }
    }
}

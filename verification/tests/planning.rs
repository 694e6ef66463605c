use code_retriever::builder::GraphBuilder;
use code_retriever::graph::CodeGraph;
use code_retriever::config::SummaryLevel;
use code_retriever::index_manager::{apply_plan, commit_note, plan_index};
use code_retriever::models::{FileMetadata, IndexMetadata, Language};
use code_retriever::summary_plan::{summary_record, summary_requests};
use code_retriever::symbols::{Symbol, SymbolKind};

fn entry(path: &str, hash: &str) -> FileMetadata {
    FileMetadata { path: path.into(), content_hash: hash.into(), last_modified: 1, chunk_ids: vec!["c".into()] }
}

fn pair(a: &str, b: &str) -> (String, String) {
    (a.to_string(), b.to_string())
}

#[test]
fn plan_parses_new_and_changed_files_and_removes_gone_ones() {
    let previous = IndexMetadata { version: "1".into(), files: vec![entry("a", "h1"), entry("b", "h2"), entry("c", "h3")] };
    let read = vec![pair("a", "h1"), pair("b", "changed"), pair("d", "h4")];
    let scanned: Vec<String> = read.iter().map(|p| p.0.clone()).collect();
    let plan = plan_index(&previous, &scanned, &read);
    assert_eq!(plan.parse, vec!["b".to_string(), "d".to_string()]);
    assert_eq!(plan.removed, vec!["c".to_string()]);
    assert_eq!((plan.new_files, plan.updated_files, plan.skipped_files, plan.removed_files), (1, 1, 1, 1));
    let mut meta = previous.clone();
    apply_plan(&mut meta, &plan);
    let paths: Vec<&str> = meta.files.iter().map(|f| f.path.as_str()).collect();
    assert_eq!(paths, vec!["a", "b"]);
    assert_eq!(commit_note(&plan), "Indexed files: new=1, updated=1, removed=1, skipped=1");
}

#[test]
fn plan_keeps_files_found_but_not_read() {
    let previous = IndexMetadata { version: "1".into(), files: vec![entry("a", "h1"), entry("b", "h2"), entry("c", "h3")] };
    let scanned = vec!["a".to_string(), "b".to_string(), "e".to_string()];
    let read = vec![pair("a", "h1"), pair("e", "h5")];
    let plan = plan_index(&previous, &scanned, &read);
    assert_eq!(plan.parse, vec!["e".to_string()]);
    assert_eq!(plan.removed, vec!["c".to_string()]);
    assert_eq!((plan.new_files, plan.updated_files, plan.skipped_files, plan.removed_files), (1, 0, 1, 1));
    let mut meta = previous.clone();
    apply_plan(&mut meta, &plan);
    let paths: Vec<&str> = meta.files.iter().map(|f| f.path.as_str()).collect();
    assert_eq!(paths, vec!["a", "b"]);
    assert_eq!(commit_note(&plan), "Indexed files: new=1, updated=0, removed=1, skipped=1");
}

fn symbol(name: &str, kind: SymbolKind, file: &str, start: usize, end: usize) -> Symbol {
    Symbol {
        id: format!("{}#{}", file, name),
        name: name.into(),
        kind,
        language: Language::Python,
        file_path: file.into(),
        start_line: start,
        end_line: end,
        fqn: name.into(),
        visibility: None,
        chunk_ids: Vec::new(),
        chunk_id: None,
    }
}

#[test]
fn summary_requests_follow_levels_and_order() {
    let files = vec![pair("/r/pkg/a.py", "\n  def f():\n    pass\nclass C:\n"), pair("/r/top.py", "x = 1\n")];
    let syms = vec![
        symbol("f", SymbolKind::Function, "/r/pkg/a.py", 1, 3),
        symbol("C", SymbolKind::Class, "/r/pkg/a.py", 4, 4),
        symbol("g", SymbolKind::Function, "/r/pkg/a.py", 9, 12),
    ];
    let levels = vec![SummaryLevel::Function, SummaryLevel::File, SummaryLevel::Module, SummaryLevel::Repo];
    let reqs = summary_requests(&levels, "/r", &syms, &files);
    let ids: Vec<&str> = reqs.iter().map(|r| r.id.as_str()).collect();
    assert_eq!(
        ids,
        vec!["/r/pkg/a.py#f", "/r/pkg/a.py#g", "file:/r/pkg/a.py", "file:/r/top.py", "module:pkg", "module:top.py", "repo:root"]
    );
    assert_eq!(reqs[0].base_text, "def f():");
    assert_eq!(reqs[0].context, "Symbol f in /r/pkg/a.py");
    assert_eq!(reqs[0].language.as_deref(), Some("python"));
    assert_eq!(reqs[1].base_text, "g");
    assert_eq!(
        reqs[2].base_text,
        "File /r/pkg/a.py symbols: f (function), C (class), g (function)\n\n  def f():\n    pass\nclass C:"
    );
    assert_eq!(reqs[2].end_line, Some(4));
    assert_eq!(reqs[2].language.as_deref(), Some("py"));
    assert_eq!(reqs[3].base_text, "File /r/top.py with no parsed symbols\nx = 1");
    assert_eq!(reqs[4].base_text, "Module pkg includes: f (function), C (class), g (function)");
    assert_eq!(reqs[5].base_text, "Module top.py includes: ");
    assert_eq!(
        reqs[6].base_text,
        "Repository summary: 2 files, 3 symbols. Sample symbols: f (function), C (class), g (function)"
    );
    let only_classes = summary_requests(&vec![SummaryLevel::Class], "/r", &syms, &files);
    assert_eq!(only_classes.len(), 1);
    assert_eq!(only_classes[0].level, SummaryLevel::Class);
    let rec = summary_record(&reqs[0], "Defines f.");
    assert_eq!(rec.id, "/r/pkg/a.py#f");
    assert_eq!(rec.text, "Defines f.");
    assert_eq!(rec.start_line, Some(1));
}

#[test]
fn language_names_read_back_in_any_case() {
    for l in [Language::Python, Language::Cpp, Language::CSharp, Language::Unknown] {
        assert_eq!(Language::from_name(l.name()), l);
        assert_eq!(Language::from_name(&l.name().to_uppercase()), l);
    }
    assert_eq!(Language::from_name("C++"), Language::Cpp);
    assert_eq!(Language::from_name("Golang"), Language::Go);
    assert_eq!(Language::from_name("C#"), Language::CSharp);
    assert_eq!(Language::from_name("h"), Language::Unknown);
}

#[test]
fn building_twice_adds_no_edge() {
    let syms = vec![
        symbol("C", SymbolKind::Class, "a.py", 1, 10),
        symbol("m", SymbolKind::Method, "a.py", 2, 3),
    ];
    let mut g = CodeGraph::new();
    GraphBuilder::build(&mut g, &syms);
    let edges = g.edges.len();
    let nodes = g.nodes.len();
    GraphBuilder::build(&mut g, &syms);
    assert_eq!(g.edges.len(), edges);
    assert_eq!(g.nodes.len(), nodes);
}

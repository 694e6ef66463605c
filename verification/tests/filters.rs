use code_retriever::models::{Chunk, Language};
use code_retriever::search_filter::{
    build_single_globset, chunk_matches, filter_line_hits, language_matches, path_matches, symbol_matches,
};

fn pair(a: &str, b: &str) -> (String, String) {
    (a.to_string(), b.to_string())
}

fn chunk(path: &str, language: Language) -> Chunk {
    Chunk {
        id: "c".into(),
        language,
        file_path: path.into(),
        start_line: 1,
        end_line: 2,
        start_byte: None,
        end_byte: None,
        node_type: "function_definition".into(),
        content_hash: "h".into(),
        content: "def f(): pass".into(),
        parent_scope: None,
        scope_path: Vec::new(),
    }
}

#[test]
fn single_globset_needs_a_compiling_pattern() {
    assert!(build_single_globset(None).is_none());
    assert!(build_single_globset(Some("[")).is_none());
    assert!(build_single_globset(Some("src/**/*.rs")).is_some());
}

#[test]
fn path_matches_relative_to_root() {
    let m = build_single_globset(Some("src/**/*.rs"));
    assert!(path_matches(&m, "/repo", "/repo/src/a/b.rs"));
    assert!(!path_matches(&m, "/repo", "/repo/lib/b.rs"));
    assert!(!path_matches(&m, "/repo", "/other/src/b.rs"));
    assert!(path_matches(&m, "/repo", "src/a.rs"));
    assert!(path_matches(&None, "/repo", "/anything"));
}

#[test]
fn language_filter_reads_the_extension() {
    assert!(language_matches(&Some(Language::Python), "a/b.py"));
    assert!(!language_matches(&Some(Language::Python), "a/b.rs"));
    assert!(language_matches(&Some(Language::Python), "Makefile"));
    assert!(language_matches(&None, "a/b.rs"));
}

#[test]
fn chunk_filter_uses_the_chunk_language_and_path() {
    let m = build_single_globset(Some("*.py"));
    assert!(chunk_matches(&Some(Language::Python), &m, "/r", &chunk("/r/a.py", Language::Python)));
    assert!(!chunk_matches(&Some(Language::Rust), &m, "/r", &chunk("/r/a.py", Language::Python)));
    assert!(!chunk_matches(&None, &m, "/r", &chunk("/r/a.rs", Language::Rust)));
    assert!(chunk_matches(&None, &None, "/r", &chunk("/r/a.rs", Language::Rust)));
}

#[test]
fn symbol_search_matches_labels_and_filters() {
    let syms = vec![
        pair("parse_config", "/r/src/config.rs"),
        pair("ConfigParser", "/r/app/parser.py"),
        pair("parse_args", "/r/src/cli.py"),
        pair("render", "/r/src/view.rs"),
    ];
    let all = symbol_matches("parse", &None, &None, "/r", &syms);
    assert_eq!(all, vec![syms[0].clone(), syms[2].clone()]);
    let py = symbol_matches("parse", &Some(Language::Python), &None, "/r", &syms);
    assert_eq!(py, vec![syms[2].clone()]);
    let m = build_single_globset(Some("src/*"));
    let in_src = symbol_matches("", &None, &m, "/r", &syms);
    assert_eq!(in_src, vec![syms[0].clone(), syms[2].clone(), syms[3].clone()]);
}

#[test]
fn line_hits_keep_their_order() {
    let hits = vec![
        ("/r/a.py".to_string(), 3, "x = 1".to_string()),
        ("/r/b.rs".to_string(), 1, "let x = 1;".to_string()),
        ("/r/c.py".to_string(), 7, "y = x".to_string()),
    ];
    let kept = filter_line_hits(&Some(Language::Python), &None, "/r", &hits);
    assert_eq!(kept, vec![hits[0].clone(), hits[2].clone()]);
    let m = build_single_globset(Some("b.*"));
    assert_eq!(filter_line_hits(&None, &m, "/r", &hits), vec![hits[1].clone()]);
}

use code_retriever::chunking::{ChunkError, Chunker, GenericChunker, JavaChunker, PythonChunker, TypeScriptChunker};
use code_retriever::index_manager::IndexManager;
use code_retriever::models::{IndexMetadata, Language};
use sha2::Digest;

const PY: &str = "def f():\n    return 1\n\nclass C:\n    pass\n";

fn expected_hash(path: &str, content: &str) -> String {
    let mut h = sha2::Sha256::new();
    h.update(path.as_bytes());
    h.update(content.as_bytes());
    hex::encode(h.finalize())
}

#[test]
fn python_chunker_makes_one_chunk_per_definition() {
    let chunks = PythonChunker::new().chunk(PY, "x.py").unwrap();
    assert_eq!(chunks.len(), 2);
    assert_eq!(chunks[0].content, "def f():\n    return 1");
    assert_eq!(chunks[0].start_line, 1);
    assert_eq!(chunks[0].end_line, 2);
    assert_eq!(chunks[0].node_type, "function_definition");
    assert_eq!(chunks[0].start_byte, Some(0));
    let full = expected_hash("x.py", "def f():\n    return 1");
    assert_eq!(chunks[0].content_hash, full);
    assert_eq!(chunks[0].id, full[..16].to_string());
    assert_eq!(chunks[0].language, Language::Python);
    assert_eq!(chunks[1].content, "class C:\n    pass");
    assert_eq!(chunks[1].start_line, 4);
}

#[test]
fn generic_chunker_runs_queries_in_order() {
    let c = GenericChunker::new(Language::Python);
    let chunks = c.chunk(PY, "x.py").unwrap();
    let kinds: Vec<&str> = chunks.iter().map(|c| c.node_type.as_str()).collect();
    assert_eq!(kinds, vec!["function_definition", "class_definition"]);
    assert_eq!(GenericChunker::get_queries_for_language(Language::Rust).len(), 5);
    assert_eq!(GenericChunker::get_queries_for_language(Language::Unknown).len(), 0);
    let q = GenericChunker::get_queries_for_language(Language::Go);
    assert_eq!(q[1].pattern, "(method_declaration) @method");
    assert_eq!(q[2].priority, 5);
    assert_eq!(
        GenericChunker::new(Language::Unknown).chunk("x", "x.txt").unwrap_err(),
        ChunkError::UnknownLanguage
    );
}

#[test]
fn java_and_typescript_chunkers() {
    let java = JavaChunker::new().chunk("class A {\n  void run() {}\n}\n", "A.java").unwrap();
    let kinds: Vec<&str> = java.iter().map(|c| c.node_type.as_str()).collect();
    assert_eq!(kinds, vec!["class_declaration", "method_declaration"]);
    let ts = TypeScriptChunker::new().chunk("function f() {}\nconst g = () => 1;\n", "a.ts").unwrap();
    let kinds: Vec<&str> = ts.iter().map(|c| c.node_type.as_str()).collect();
    assert_eq!(kinds, vec!["function_declaration", "arrow_function"]);
    assert!(ts.iter().all(|c| c.language == Language::TypeScript));
    let tsx = TypeScriptChunker::new().chunk("function App() { return <div/>; }\n", "a.tsx").unwrap();
    assert_eq!(tsx.len(), 1);
}

#[test]
fn compute_hash_is_sha256_hex() {
    assert_eq!(
        IndexManager::compute_hash(""),
        "e3b0c44298fc1c149afbf4c8996fb92427ae41e4649b934ca495991b7852b855"
    );
    assert_eq!(
        IndexManager::compute_hash("abc"),
        "ba7816bf8f01cfea414140de5dae2223b00361a396177a9cb410ff61f20015ad"
    );
}

#[test]
fn update_file_entry_replaces_or_appends() {
    let mut m = IndexMetadata::default();
    assert_eq!(m.version, "1");
    IndexManager::update_file_entry_at(&mut m, "a.rs", "h1".into(), vec!["c1".into()], 7);
    IndexManager::update_file_entry_at(&mut m, "b.rs", "h2".into(), vec![], 8);
    IndexManager::update_file_entry_at(&mut m, "a.rs", "h3".into(), vec!["c2".into(), "c3".into()], 9);
    assert_eq!(m.files.len(), 2);
    assert_eq!(m.files[0].path, "a.rs");
    assert_eq!(m.files[0].content_hash, "h3");
    assert_eq!(m.files[0].last_modified, 9);
    assert_eq!(m.files[0].chunk_ids, vec!["c2".to_string(), "c3".to_string()]);
    assert_eq!(m.files[1].content_hash, "h2");
    IndexManager::update_file_entry(&mut m, "c.rs", "h4".into(), vec![]);
    assert_eq!(m.files.len(), 3);
    assert!(m.files[2].last_modified > 0);
}

#[test]
fn function_and_method_queries_have_top_priority() {
    let langs = [
        Language::Python,
        Language::Java,
        Language::TypeScript,
        Language::JavaScript,
        Language::Cpp,
        Language::Go,
        Language::Rust,
        Language::Ruby,
        Language::Php,
        Language::CSharp,
        Language::C,
    ];
    for lang in langs {
        let qs = GenericChunker::get_queries_for_language(lang);
        assert!(!qs.is_empty());
        assert_eq!(qs[0].priority, 10);
        for q in &qs {
            if q.pattern.ends_with("@function") || q.pattern.ends_with("@method") {
                assert_eq!(q.priority, 10);
            } else {
                assert!(q.priority == 5 || q.priority == 8);
            }
        }
    }
}

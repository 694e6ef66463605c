use code_retriever::glob_filter::build_globset;
use code_retriever::line_search::{compile_case_sensitive, regex_file_hits, regex_search, search_globsets};

fn file(rel: &str, text: &str) -> (String, String) {
    (rel.to_string(), text.to_string())
}

#[test]
fn case_sensitive_pattern_and_error_message() {
    assert!(compile_case_sensitive("fn \\w+").is_ok());
    let err = compile_case_sensitive("(").err().unwrap();
    assert!(err.starts_with("Invalid regex '(': "));
    assert!(err.len() > "Invalid regex '(': ".len());
}

#[test]
fn file_hits_match_case_and_number_lines() {
    let p = compile_case_sensitive("Foo").ok().unwrap();
    let text = "let Foo = 1;\nlet foo = 2;\r\nFoo()\n";
    let hits = regex_file_hits("src/a.rs", text, &p, &None, &None);
    assert_eq!(hits, vec![(1, "let Foo = 1;".to_string()), (3, "Foo()".to_string())]);
    let only_py = build_globset(&vec!["**/*.py".to_string()]);
    assert!(regex_file_hits("src/a.rs", text, &p, &only_py, &None).is_empty());
    let skip_src = build_globset(&vec!["src/**".to_string()]);
    assert!(regex_file_hits("src/a.rs", text, &p, &None, &skip_src).is_empty());
}

#[test]
fn search_applies_default_globs() {
    let (inc, exc) = search_globsets(&Vec::new(), &Vec::new());
    assert!(inc.is_some());
    assert!(exc.is_some());
    let files = vec![
        file("src/main.rs", "fn main() {}\nfn Main() {}\n"),
        file("target/debug/gen.rs", "fn main() {}\n"),
        file("node_modules/x/index.js", "function main() {}\n"),
        file("lib/util.rs", "// main here\n"),
    ];
    let hits = regex_search("main", &Vec::new(), &Vec::new(), &files).unwrap();
    assert_eq!(
        hits,
        vec![
            ("src/main.rs".to_string(), 1, "fn main() {}".to_string()),
            ("lib/util.rs".to_string(), 1, "// main here".to_string()),
        ]
    );
    let only_lib = regex_search("main", &vec!["lib/**".to_string()], &Vec::new(), &files).unwrap();
    assert_eq!(only_lib, vec![("lib/util.rs".to_string(), 1, "// main here".to_string())]);
    let skip_lib = regex_search("main", &Vec::new(), &vec!["lib/**".to_string()], &files).unwrap();
    assert_eq!(skip_lib.len(), 1);
    assert!(regex_search("(", &Vec::new(), &Vec::new(), &files).is_err());
}

use code_retriever::agent::{
    missing_tool_message, nudge_message, summary_prompt, search_defaults, tool_error_message, tool_output_message, tools_description,
    AgentDepth, AgentOptions, ArgDefault, AskAction, AskState,
};
use code_retriever::config::{SearchMode, SummaryLevel};
use code_retriever::dir_listing::{dir_listing, sort_names};
use code_retriever::glob_filter::{build_globset, path_allowed};
use code_retriever::line_search::{split_byte_lines, RegexSearcher, SearchError};
use code_retriever::order::rank_scores;
use code_retriever::tool_call::{extract_tool_args, JsonValue};
use code_retriever::summary_search::{lexical_score_exec, parse_level, summaries_report, SummaryRecord};

fn record(id: &str, level: SummaryLevel, text: &str, lang: Option<&str>) -> SummaryRecord {
    SummaryRecord {
        id: id.to_string(),
        level,
        target_id: format!("target-{}", id),
        text: text.to_string(),
        file_path: None,
        start_line: None,
        end_line: None,
        language: lang.map(|l| l.to_string()),
    }
}

#[test]
fn byte_lines_follow_buffered_reading() {
    let ls = split_byte_lines(b"a\r\nb\n\nc\r");
    assert_eq!(ls, vec![b"a".to_vec(), b"b".to_vec(), b"".to_vec(), b"c\r".to_vec()]);
    assert!(split_byte_lines(b"").is_empty());
    assert_eq!(split_byte_lines(b"x\n"), vec![b"x".to_vec()]);
}

#[test]
fn matching_lines_are_numbered_and_case_insensitive() {
    let p = RegexSearcher::compile("fo+").ok().unwrap();
    let content = b"bar\nFOO here\n\xff foo\nnone\nfoo\n";
    let found = RegexSearcher::matching_lines(&p, content);
    assert_eq!(found, vec![(2, "FOO here".to_string()), (5, "foo".to_string())]);
}

#[test]
fn invalid_pattern_is_refused() {
    match RegexSearcher::compile("(unclosed") {
        Err(SearchError::InvalidPattern(msg)) => assert!(!msg.is_empty()),
        Ok(_) => panic!("pattern should be refused"),
    }
}

#[test]
fn reference_pattern_escapes_the_symbol() {
    assert_eq!(RegexSearcher::reference_pattern("a.b"), r"\ba\.b\b");
    assert_eq!(RegexSearcher::reference_pattern("plain"), r"\bplain\b");
    let p = RegexSearcher::compile(&RegexSearcher::reference_pattern("run")).ok().unwrap();
    let found = RegexSearcher::matching_lines(&p, b"run()\nrunner\nx = Run\n");
    assert_eq!(found, vec![(1, "run()".to_string()), (3, "x = Run".to_string())]);
}

#[test]
fn lexical_score_counts_bytes() {
    assert_eq!(lexical_score_exec(b"hello world", b"hello"), Some(5));
    assert_eq!(lexical_score_exec(b"ab hello", b"hello"), Some(2));
    assert_eq!(lexical_score_exec(b"abcdefg hi", b"hi"), None);
    assert_eq!(lexical_score_exec(b"abc", b"zz"), None);
    assert_eq!(lexical_score_exec(b"x", b""), Some(0));
}

#[test]
fn ranking_is_stable_and_descending() {
    let scores: Vec<Option<u128>> = vec![Some(2), None, Some(5), Some(2), Some(7)];
    assert_eq!(rank_scores(&scores), vec![4, 2, 0, 3]);
    assert!(rank_scores(&vec![None, None]).is_empty());
}

#[test]
fn level_names_parse_in_any_case() {
    assert_eq!(parse_level("Function"), Some(SummaryLevel::Function));
    assert_eq!(parse_level("REPO"), Some(SummaryLevel::Repo));
    assert_eq!(parse_level("crate"), None);
}

#[test]
fn summaries_report_ranks_filters_and_formats() {
    let mut a = record("a", SummaryLevel::Function, "parse the config", Some("Rust"));
    a.file_path = Some("src/a.rs".to_string());
    a.start_line = Some(3);
    a.end_line = Some(9);
    let b = record("b", SummaryLevel::File, "Config loader", Some("python"));
    let c = record("c", SummaryLevel::Function, "unrelated", Some("rust"));
    let rs = vec![a, b, c];
    assert_eq!(summaries_report(&rs, "  ", 5, None, None), "No summaries matched.");
    assert_eq!(summaries_report(&rs, "", 5, None, None), "Query cannot be empty");
    let out = summaries_report(&rs, "CONFIG", 5, None, None);
    assert_eq!(
        out,
        "Summary: b\nLevel: File\nTarget: target-b\nLocation: target-b\nText: Config loader\n\n"
    );
    let out = summaries_report(&rs, "pars", 5, Some("function"), Some("RUST"));
    assert_eq!(
        out,
        "Summary: a\nLevel: Function\nTarget: target-a\nLocation: src/a.rs:3-9\nText: parse the config\n\n"
    );
    assert_eq!(summaries_report(&rs, "pars", 5, Some("file"), None), "No summaries matched.");
    assert_eq!(summaries_report(&rs, "c", 0, None, None), "No summaries matched.");
}

#[test]
fn ask_state_nudges_runs_tools_and_gives_up() {
    let opts = AgentOptions { depth: AgentDepth::Shallow, ..AgentOptions::default() };
    let mut s = AskState::start(&opts);
    assert_eq!(s.max_steps, 3);
    assert!(matches!(s.next_action(), AskAction::Consult));
    assert!(matches!(s.on_reply(false, "thinking"), AskAction::Nudge));
    assert!(matches!(s.on_reply(true, "{\"tool\":\"grep\"}"), AskAction::RunTool));
    match s.on_reply(false, "final") {
        AskAction::Answer(t) => assert_eq!(t, "final"),
        _ => panic!("expected an answer"),
    }
    assert_eq!(s.steps, 3);
    match s.next_action() {
        AskAction::Answer(t) => assert_eq!(t, "I reached the maximum number of steps without a final answer."),
        _ => panic!("expected the step limit"),
    }
}

#[test]
fn agent_messages() {
    assert_eq!(nudge_message(), "No tool call seen. Respond with a JSON tool call only.");
    assert_eq!(tool_output_message("ok"), "Tool Output: ok");
    assert_eq!(missing_tool_message("nope"), "Error: Tool 'nope' not found.");
    assert_eq!(tool_error_message("boom"), "Error: boom");
    let tools = vec![("grep".to_string(), "find text".to_string()), ("ls".to_string(), "list".to_string())];
    assert_eq!(tools_description(&tools), "- grep: find text\n- ls: list\n");
}

#[test]
fn search_defaults_fill_missing_arguments() {
    let opts = AgentOptions {
        top: Some(7),
        mode: Some(SearchMode::Lexical),
        lang: Some("rust".to_string()),
        path: None,
        with_summaries: true,
        depth: AgentDepth::Default,
    };
    let keys = vec!["top".to_string()];
    let d = search_defaults("search", &keys, &opts);
    assert_eq!(d.len(), 3);
    assert!(matches!(d[0], ArgDefault::Mode(SearchMode::Lexical)));
    assert!(matches!(&d[1], ArgDefault::Lang(l) if l == "rust"));
    assert!(matches!(d[2], ArgDefault::WithSummaries));
    assert!(search_defaults("grep", &Vec::new(), &opts).is_empty());
}

#[test]
fn names_sort_by_bytes() {
    let names: Vec<String> = vec!["b", "B", "a", "ab", "", "a"].into_iter().map(String::from).collect();
    assert_eq!(sort_names(&names), vec!["", "B", "a", "a", "ab", "b"]);
    let unicode: Vec<String> = vec!["é", "z", "e"].into_iter().map(String::from).collect();
    assert_eq!(sort_names(&unicode), vec!["e", "z", "é"]);
}

#[test]
fn dir_listing_puts_directories_first() {
    let dirs = vec!["src".to_string(), "docs".to_string()];
    let files = vec!["README.md".to_string(), "Cargo.toml".to_string()];
    assert_eq!(
        dir_listing(".", &dirs, &files),
        "Contents of .:\n  docs/\n  src/\n  Cargo.toml\n  README.md\n"
    );
    assert_eq!(dir_listing("empty", &Vec::new(), &Vec::new()), "Contents of empty:\n");
}

#[test]
fn glob_filters_choose_the_files_read() {
    let wanted = build_globset(&vec!["src/**".to_string(), "[".to_string()]).unwrap();
    let skipped = build_globset(&vec!["**/*.md".to_string()]).unwrap();
    assert!(path_allowed(&Some(wanted), &None, "src/lib.rs"));
    let wanted = build_globset(&vec!["src/**".to_string()]).unwrap();
    assert!(!path_allowed(&Some(wanted), &None, "docs/a.rs"));
    assert!(!path_allowed(&None, &Some(skipped), "docs/readme.md"));
    let skipped = build_globset(&vec!["**/*.md".to_string()]).unwrap();
    assert!(path_allowed(&None, &Some(skipped), "docs/readme.txt"));
    assert!(build_globset(&Vec::new()).is_none());
    assert!(path_allowed(&None, &None, "anything"));
}

#[test]
fn summary_prompt_frames_the_code() {
    let p = summary_prompt("fn a() {}", "file a.rs");
    assert_eq!(
        p,
        "You are a code summarization assistant. Summarize the following code concisely.\nContext: file a.rs\nCode:\n```\nfn a() {}\n```\nSummary:"
    );
}

#[test]
fn glob_set_of_no_compiling_pattern_is_empty() {
    let none_compile = build_globset(&vec!["[".to_string()]);
    assert!(none_compile.is_some());
    assert!(!path_allowed(&none_compile, &None, "src/lib.rs"));
}

fn text(s: &str) -> JsonValue {
    JsonValue::Text(s.to_string())
}

#[test]
fn tool_calls_read_from_json_objects() {
    let call = JsonValue::Object(vec![
        ("tool".to_string(), text("grep")),
        ("args".to_string(), JsonValue::Object(vec![("pattern".to_string(), text("fn"))])),
    ]);
    match extract_tool_args(call) {
        Some((name, JsonValue::Object(m))) => {
            assert_eq!(name, "grep");
            assert_eq!(m.len(), 1);
            assert_eq!(m[0].0, "pattern");
        }
        _ => panic!("expected a tool call"),
    }
    let flat = JsonValue::Object(vec![("tool".to_string(), text("ls")), ("path".to_string(), text("src"))]);
    match extract_tool_args(flat) {
        Some((name, JsonValue::Object(m))) => {
            assert_eq!(name, "ls");
            assert_eq!(m.len(), 1);
            assert_eq!(m[0].0, "path");
        }
        _ => panic!("expected a tool call"),
    }
    let scalar = JsonValue::Object(vec![("tool".to_string(), text("x")), ("args".to_string(), JsonValue::Bool(true))]);
    match extract_tool_args(scalar) {
        Some((_, JsonValue::Object(m))) => {
            assert_eq!(m[0].0, "value");
            assert!(matches!(m[0].1, JsonValue::Bool(true)));
        }
        _ => panic!("expected a tool call"),
    }
    assert!(extract_tool_args(JsonValue::Object(vec![("tool".to_string(), JsonValue::Null)])).is_none());
    assert!(extract_tool_args(text("grep")).is_none());
}

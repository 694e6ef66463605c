use code_retriever::tokenizer::{count_tokens, estimate_tokens, try_count_tokens};

#[test]
fn test_count_tokens() {
    let text = "fn hello() { println!(\"world\"); }";
    let count = count_tokens(text);
    assert!(count > 0);
    assert!(count < 20);
}

#[test]
fn test_estimate_tokens() {
    let text = "a".repeat(400);
    let estimate = estimate_tokens(&text);
    assert_eq!(estimate, 100);
}

#[test]
fn estimate_rounds_up() {
    assert_eq!(estimate_tokens(""), 0);
    assert_eq!(estimate_tokens("a"), 1);
    assert_eq!(estimate_tokens("abcd"), 1);
    assert_eq!(estimate_tokens("abcde"), 2);
}

#[test]
fn estimate_counts_characters() {
    assert_eq!(estimate_tokens("éééé"), 1);
    assert_eq!(estimate_tokens("ééééé"), 2);
}

#[test]
fn try_count_matches_count() {
    let text = "hello world";
    assert_eq!(try_count_tokens(text), Some(2));
    assert_eq!(count_tokens(text), 2);
    assert_eq!(try_count_tokens(""), Some(0));
}

use ebm25::{group_by, tokenize};

#[test]
fn test_tokenize() {
    let text = "This is a test";
    let tokens = tokenize(text);
    assert_eq!(tokens, vec!["This", "is", "a", "test"]);
}

#[test]
fn test_empty_tokenize() {
    let text = "";
    let tokens = tokenize(text);
    let vector: Vec<String> = vec![];
    assert_eq!(tokens, vector);
}

#[test]
fn tokenizer_splits_stems_and_drops_long_tokens() {
    assert_eq!(tokenize("jumps, gathering; foxes!"), vec!["jump", "gather", "fox"]);
    let long = "a".repeat(40);
    let kept = "b".repeat(39);
    let text = format!("{} {} end", long, kept);
    assert_eq!(tokenize(&text), vec![kept, "end".to_string()]);
    assert_eq!(tokenize("  ...  "), Vec::<String>::new());
}

#[test]
fn tokenizer_is_the_same_for_the_same_text() {
    let text = "The quick brown fox jumps over the lazy dog";
    assert_eq!(tokenize(text), tokenize(text));
}

#[test]
fn group_by_counts_each_token_once_in_order_of_first_occurrence() {
    let tokens: Vec<String> =
        ["alpha", "beta", "alpha", "gamma", "beta", "alpha"].iter().map(|s| s.to_string()).collect();
    assert_eq!(
        group_by(&tokens),
        vec![("alpha".to_string(), 3), ("beta".to_string(), 2), ("gamma".to_string(), 1)]
    );
    assert_eq!(group_by(&Vec::new()), Vec::<(String, u64)>::new());
    assert_eq!(group_by(&vec!["x".to_string()]), vec![("x".to_string(), 1)]);
}

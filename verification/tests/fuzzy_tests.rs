use brainjar::fuzzy::{correct_word, extract_tokens, levenshtein, split_compound};

#[test]
fn test_levenshtein() {
    assert_eq!(levenshtein("kitten", "sitting"), 3);
    assert_eq!(levenshtein("", "abc"), 3);
    assert_eq!(levenshtein("abc", ""), 3);
    assert_eq!(levenshtein("abc", "abc"), 0);
    assert_eq!(levenshtein("fuzzy", "fussy"), 2);
    assert_eq!(levenshtein("sync", "synk"), 1);
    assert_eq!(levenshtein("brainjar", "brainjr"), 1);
}

#[test]
fn test_split_compound_snake() {
    let parts = split_compound("knowledge_graph");
    assert!(parts.contains(&"knowledge_graph".to_string()));
    assert!(parts.contains(&"knowledge".to_string()));
    assert!(parts.contains(&"graph".to_string()));
}

#[test]
fn test_split_compound_camel() {
    let parts = split_compound("KnowledgeGraph");
    assert!(parts.contains(&"knowledgegraph".to_string()));
    assert!(parts.contains(&"knowledge".to_string()));
    assert!(parts.contains(&"graph".to_string()));
}

#[test]
fn test_split_compound_hyphen() {
    let parts = split_compound("ingest-entities");
    assert!(parts.contains(&"ingest-entities".to_string()));
    assert!(parts.contains(&"ingest".to_string()));
    assert!(parts.contains(&"entities".to_string()));
}

#[test]
fn test_extract_tokens_min_length() {
    let tokens = extract_tokens("hi hello world");
    assert!(!tokens.contains(&"hi".to_string()));
    assert!(tokens.contains(&"hello".to_string()));
    assert!(tokens.contains(&"world".to_string()));
}

#[test]
fn test_correct_word_exact_match() {
    let vocab = vec![("sync".to_string(), 10), ("search".to_string(), 5)];
    assert_eq!(correct_word("sync", &vocab), "sync");
}

#[test]
fn test_correct_word_typo() {
    let vocab = vec![("sync".to_string(), 10), ("search".to_string(), 5)];
    assert_eq!(correct_word("synk", &vocab), "sync");
}

use brainjar::dedup::{dedup_plan, word_overlap};

#[derive(Debug, Clone)]
struct UnifiedResult {
    file: String,
    score: f64,
    content: String,
    also_in: Vec<String>,
}

fn make_unified(file: &str, score: f64, content: &str) -> UnifiedResult {
    UnifiedResult { file: file.to_string(), score, content: content.to_string(), also_in: Vec::new() }
}

/// An integer that orders finite scores as the scores themselves are ordered.
fn score_key(x: f64) -> u64 {
    let b = x.to_bits();
    if b >> 63 == 1 {
        !b
    } else {
        b | (1u64 << 63)
    }
}

fn dedup_unified_results(results: Vec<UnifiedResult>) -> Vec<UnifiedResult> {
    let keyed: Vec<(u64, String)> = results.iter().map(|r| (score_key(r.score), r.content.clone())).collect();
    dedup_plan(&keyed)
        .into_iter()
        .map(|(i, folded)| {
            let mut r = results[i].clone();
            r.also_in.extend(folded.into_iter().map(|j| results[j].file.clone()));
            r
        })
        .collect()
}

fn jaccard_similarity(a: &str, b: &str) -> f64 {
    let (shared, total) = word_overlap(a, b);
    if total == 0 {
        0.0
    } else {
        shared as f64 / total as f64
    }
}

#[test]
fn test_dedup_exact_duplicates_collapsed() {
    let content = "This is a shared codebase preference snippet.";
    let results = vec![
        make_unified("pref_2025-11-03.md", 0.9, content),
        make_unified("pref_2026-01-10.md", 0.7, content),
        make_unified("pref_2026-02-05.md", 0.5, content),
    ];
    let deduped = dedup_unified_results(results);
    assert_eq!(deduped.len(), 1, "Exact duplicates should collapse to 1");
    assert_eq!(deduped[0].file, "pref_2025-11-03.md");
    assert_eq!(deduped[0].score, 0.9);
    assert_eq!(deduped[0].also_in.len(), 2);
    assert!(deduped[0].also_in.contains(&"pref_2026-01-10.md".to_string()));
    assert!(deduped[0].also_in.contains(&"pref_2026-02-05.md".to_string()));
}

#[test]
fn test_dedup_distinct_content_not_collapsed() {
    let results = vec![
        make_unified("doc_a.md", 0.9, "Rust is a systems language with memory safety."),
        make_unified("doc_b.md", 0.7, "Python is great for scripting and data science."),
    ];
    let deduped = dedup_unified_results(results);
    assert_eq!(deduped.len(), 2, "Distinct content should not be collapsed");
    assert!(deduped[0].also_in.is_empty());
    assert!(deduped[1].also_in.is_empty());
}

#[test]
fn test_dedup_empty_content_not_deduplicated() {
    let results = vec![make_unified("doc_a.md", 0.9, ""), make_unified("doc_b.md", 0.7, "")];
    let deduped = dedup_unified_results(results);
    assert_eq!(deduped.len(), 2, "Empty content should not be treated as duplicates");
}

#[test]
fn test_dedup_near_duplicate_jaccard() {
    let base = "alpha beta gamma delta epsilon zeta eta theta iota kappa lambda mu nu xi omicron";
    let near = "alpha beta gamma delta epsilon zeta eta theta iota kappa lambda mu nu xi omicron rho";
    let results = vec![make_unified("doc_a.md", 0.8, base), make_unified("doc_b.md", 0.6, near)];
    let deduped = dedup_unified_results(results);
    assert_eq!(deduped.len(), 1);
    assert_eq!(deduped[0].file, "doc_a.md");
    assert!(deduped[0].also_in.contains(&"doc_b.md".to_string()));
}

#[test]
fn test_jaccard_similarity_identical() {
    let s = "hello world foo bar";
    assert!((jaccard_similarity(s, s) - 1.0).abs() < 1e-9);
}

#[test]
fn test_jaccard_similarity_disjoint() {
    assert!(jaccard_similarity("hello world", "foo bar").abs() < 1e-9);
}

#[test]
fn test_jaccard_similarity_empty() {
    assert!(jaccard_similarity("", "").abs() < 1e-9);
}

#[test]
fn test_dedup_preserves_highest_score() {
    let content = "identical content here";
    let results = vec![
        make_unified("low.md", 0.3, content),
        make_unified("high.md", 0.95, content),
        make_unified("mid.md", 0.6, content),
    ];
    let deduped = dedup_unified_results(results);
    assert_eq!(deduped.len(), 1);
    assert_eq!(deduped[0].file, "high.md");
    assert_eq!(deduped[0].score, 0.95);
    assert_eq!(deduped[0].also_in.len(), 2);
}

// ─── The plan itself ─────────────────────────────────────────────────────────

#[test]
fn dedup_plan_ranks_and_folds() {
    // 0 and 2 have the same content (whitespace aside); 2 has the higher key.
    // 1 is a near duplicate of 3 (16 shared words out of 17).
    let base = "a b c d e f g h i j k l m n o p";
    let results = vec![
        (5u64, "same  text\n".to_string()),
        (3u64, base.to_string()),
        (9u64, " same text".to_string()),
        (7u64, format!("{} q", base)),
        (1u64, "".to_string()),
    ];
    let plan = dedup_plan(&results);
    assert_eq!(plan, vec![(2, vec![0]), (3, vec![1]), (4, vec![])]);
}

#[test]
fn dedup_plan_equal_keys_keep_first() {
    let results = vec![(4u64, "x y".to_string()), (4u64, "x  y".to_string()), (6u64, "z".to_string())];
    assert_eq!(dedup_plan(&results), vec![(2, vec![]), (0, vec![1])]);
}

#[test]
fn dedup_plan_below_threshold_stays() {
    // 6 shared of 7: 6/7 ≈ 0.857 > 0.85 collapses; 5 shared of 6 ≈ 0.833 does not.
    let six = "a b c d e f";
    let results_close = vec![(2u64, six.to_string()), (1u64, format!("{} g", six))];
    assert_eq!(dedup_plan(&results_close), vec![(0, vec![1])]);
    let five = "a b c d e";
    let results_far = vec![(2u64, five.to_string()), (1u64, format!("{} f", five))];
    assert_eq!(dedup_plan(&results_far), vec![(0, vec![]), (1, vec![])]);
}

#[test]
fn word_overlap_counts_each_word_once() {
    assert_eq!(word_overlap("a a b", "b c c"), (1, 3));
    assert_eq!(word_overlap("", ""), (0, 0));
}

#[test]
fn dedup_plan_equal_content_follows_its_best_when_absorbed() {
    // 2 has the content of 1 and a lower key: it is folded into 1. Then 1 is
    // absorbed by 0 as a near duplicate (7 of 8 words): only 1 is listed with
    // 0, and 2, folded into 1, is listed nowhere.
    let results = vec![
        (9u64, "a b c d e f g".to_string()),
        (5u64, "a b c d e f g h".to_string()),
        (4u64, "a b c d e f g h".to_string()),
    ];
    assert_eq!(dedup_plan(&results), vec![(0, vec![1])]);
}

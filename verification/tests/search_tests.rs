use brainjar::search::{filename_matches, SearchEngine, SearchMode};

#[test]
fn test_search_mode_defaults() {
    let mode = SearchMode::default_mode();
    assert!(mode.run_fuzzy());
    assert!(mode.run_fts());
    assert!(mode.run_graph());
    assert!(mode.run_vector());
    assert!(!mode.run_local());
}

#[test]
fn test_search_mode_from_flags() {
    let mode = SearchMode::from_flags(false, false, false, false, false);
    assert!(mode.run_fuzzy());
    assert!(mode.run_graph());
    assert!(mode.run_vector());
    assert!(mode.run_filename());

    let mode = SearchMode::from_flags(true, false, false, false, false);
    assert!(mode.has(SearchEngine::Text));
    assert!(!mode.run_graph());

    let mode = SearchMode::from_flags(false, true, true, false, false);
    assert!(mode.run_graph());
    assert!(mode.run_vector());
    assert!(!mode.run_fts());

    let mode = SearchMode::from_flags(false, false, false, true, false);
    assert!(mode.run_local());
    assert!(!mode.run_fts());

    let mode = SearchMode::from_flags(false, false, false, false, true);
    assert!(mode.run_filename());
    assert!(!mode.run_fts());
}

/// Filename search over the given indexed paths, scores as fractions of a
/// point.
fn search_filename(paths: &[&str], query: &str) -> Vec<(String, f64)> {
    let owned: Vec<String> = paths.iter().map(|p| p.to_string()).collect();
    filename_matches(&owned, query).into_iter().map(|(p, half)| (p, half as f64 / 2.0)).collect()
}

#[test]
fn test_filename_search_exact_match() {
    let results = search_filename(&["docs/architecture.md", "docs/other.md"], "architecture");
    let arch = results.iter().find(|(p, _)| p.contains("architecture.md"));
    assert!(arch.is_some(), "architecture.md should match");
    assert!((arch.unwrap().1 - 1.0).abs() < 1e-9, "exact match should score 1.0, got {}", arch.unwrap().1);
    let other = results.iter().find(|(p, _)| p.contains("other.md"));
    assert!(other.is_none(), "other.md should not match query 'architecture'");
}

#[test]
fn test_filename_search_substring_match() {
    let results = search_filename(&["docs/architecture.md", "docs/arch-notes.md"], "arch");
    let arch_md = results.iter().find(|(p, _)| p.ends_with("architecture.md"));
    let arch_notes = results.iter().find(|(p, _)| p.ends_with("arch-notes.md"));
    assert!(arch_md.is_some(), "architecture.md should match 'arch'");
    assert_eq!(arch_md.unwrap().1, 0.5, "substring match should score 0.5");
    assert!(arch_notes.is_some(), "arch-notes.md should match 'arch'");
    assert_eq!(arch_notes.unwrap().1, 0.5);
}

#[test]
fn test_filename_search_no_match() {
    let results = search_filename(&["docs/architecture.md", "docs/overview.md"], "zebra");
    assert!(results.is_empty(), "no files should match 'zebra'");
}

#[test]
fn test_filename_search_multiple_words() {
    let results = search_filename(
        &["docs/architecture-overview.md", "docs/architecture.md", "docs/overview.md"],
        "architecture overview",
    );
    let arch_ov = results.iter().find(|(p, _)| p.ends_with("architecture-overview.md"));
    let arch = results.iter().find(|(p, _)| p.ends_with("architecture.md") && !p.ends_with("architecture-overview.md"));
    assert!(arch_ov.is_some(), "architecture-overview.md should match");
    assert!(arch.is_some(), "architecture.md should match");
    assert!((arch_ov.unwrap().1 - 1.0).abs() < 1e-9, "architecture-overview.md should score 1.0 (capped), got {}", arch_ov.unwrap().1);
    assert!((arch.unwrap().1 - 1.0).abs() < 1e-9, "architecture.md should score 1.0 for exact 'architecture' match, got {}", arch.unwrap().1);
    assert!(arch_ov.unwrap().1 >= arch.unwrap().1);
}

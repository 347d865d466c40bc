use brainjar::config::{expand_env_value, resolve_api_key, ProviderConfig};
use brainjar::extract::queries_from_reply;
use brainjar::init::{is_project_local, with_kb, with_provider, KbConfig, ProviderEntry};
use brainjar::mcp::{plan_tool_call, McpTool, ToolAction};
use brainjar::sync::sync_plan;
use brainjar::chunk::{chunk_file, chunk_text, merge_short_chunks, ChunkKind, Piece};
use brainjar::fuzzy::{correct_word, levenshtein, split_camel_case};
use brainjar::init::resolve_data_dir;
use brainjar::mcp::{search_args, smart_search_text};
use brainjar::search::{filename_matches, graph_query_text, SearchEngine};
use brainjar::treesitter::{is_import_kind, kind_to_chunk_type};

fn piece(text: &str, start: usize, end: usize) -> Piece {
    Piece { content: text.chars().collect(), line_start: start, line_end: end, kind: ChunkKind::Paragraph }
}

#[test]
fn levenshtein_counts_every_edit_when_lengths_differ_widely() {
    assert_eq!(levenshtein("abcde", "x"), 5);
    assert_eq!(levenshtein("abcdefgh", "b"), 7);
    assert_eq!(levenshtein("x", "abcde"), 5);
}

#[test]
fn correction_skips_words_of_distant_length() {
    let vocab = vec![("authentication".to_string(), 9), ("auth".to_string(), 1)];
    assert_eq!(correct_word("autj", &vocab), "auth");
    assert_eq!(correct_word("authenticatoin", &vocab), "authentication");
}

#[test]
fn camel_parts_have_no_inner_uppercase() {
    let parts = split_camel_case("parseHTTPRequest");
    for p in &parts {
        assert!(p.chars().skip(1).all(|c| !c.is_uppercase()), "{:?}", parts);
    }
    assert_eq!(parts.concat(), "parseHTTPRequest");
}

#[test]
fn text_chunks_are_paragraphs_without_blank_lines() {
    let content = "First paragraph line one.\nline two.\n\n\n  \nSecond paragraph here.\n\nThird.";
    let chunks = chunk_text(content);
    assert!(!chunks.is_empty());
    for c in &chunks {
        assert_eq!(c.chunk_type, "paragraph");
        assert!(c.content.lines().all(|l| !l.trim().is_empty()), "{:?}", c.content);
    }
}

#[test]
fn merged_chunks_are_non_blank_and_only_a_sole_one_short() {
    let long = "x".repeat(40);
    let out = merge_short_chunks(vec![piece("tiny", 1, 1), piece(&long, 2, 2), piece("   ", 3, 3), piece("end", 4, 4)]);
    assert!(out.iter().all(|c| c.content.iter().any(|ch| !ch.is_whitespace())));
    if out.len() >= 2 {
        assert!(out.iter().all(|c| c.content.iter().collect::<String>().trim().len() >= 30));
    }
    assert_eq!(out.len(), 1);
    let sole = merge_short_chunks(vec![piece("a", 1, 1), piece("b", 2, 2)]);
    assert_eq!(sole.len(), 1);
    assert_eq!(sole[0].content.iter().collect::<String>(), "a\nb");
    let blank = merge_short_chunks(vec![piece("  ", 1, 1), piece("\t", 2, 2)]);
    assert!(blank.is_empty());
}

#[test]
fn no_word_of_a_file_is_lost() {
    let content = "# Title\n\nSome words here, and (more) words.\n\n```\ncode block\n```\n";
    let chunks = chunk_file("notes.md", content, None);
    for w in content.split_whitespace() {
        let core = w.trim_matches(|ch: char| !ch.is_alphanumeric());
        if !core.is_empty() {
            assert!(chunks.iter().any(|c| c.content.contains(core)), "lost {}", core);
        }
    }
}

#[test]
fn import_kinds_are_exactly_the_import_chunk_type() {
    for k in ["use_declaration", "import_statement", "preproc_include", "open_statement", "function_item", "struct_item", "foo"] {
        assert_eq!(is_import_kind(k), kind_to_chunk_type(k) == "import", "{}", k);
    }
}

#[test]
fn filename_matches_rank_full_points_first() {
    let paths = vec!["docs/auth.md".to_string(), "src/oauth_helper.rs".to_string(), "README.md".to_string(), "x/auth.rs".to_string()];
    let out = filename_matches(&paths, "Auth");
    assert_eq!(
        out,
        vec![("docs/auth.md".to_string(), 2), ("x/auth.rs".to_string(), 2), ("src/oauth_helper.rs".to_string(), 1)]
    );
}

#[test]
fn data_dir_is_always_named_brainjar() {
    for p in ["/home/u/project/brainjar.toml", "/home/u/project/.brainjar/brainjar.toml", "brainjar.toml"] {
        let d = resolve_data_dir(p);
        assert_eq!(std::path::Path::new(&d).file_name().unwrap(), ".brainjar", "{}", p);
    }
}

#[test]
fn graph_query_joins_words_once() {
    assert_eq!(graph_query_text("atuh  flow", "auth flow"), "atuh flow auth");
    assert_eq!(graph_query_text("", "a b a"), "a b");
}

#[test]
fn search_tool_defaults() {
    let a = search_args(None, None, None, None, None, None);
    assert_eq!(a.limit, 5);
    assert!(!a.exact && !a.include_content && !a.doc_score && !a.smart);
    assert!(a.mode.has(SearchEngine::Fuzzy) && a.mode.has(SearchEngine::Graph));
    let b = search_args(Some(9), Some(true), Some("local"), Some(true), Some(false), Some(true));
    assert_eq!(b.limit, 9);
    assert!(b.exact && b.include_content && !b.doc_score && b.smart);
    assert!(b.mode.has(SearchEngine::Local) && !b.mode.has(SearchEngine::Fuzzy));
}

#[test]
fn smart_text_puts_context_first() {
    assert_eq!(smart_search_text("q", Some("ctx")), "ctx\n\nq");
    assert_eq!(smart_search_text("q", None), "q");
}

#[test]
fn queries_read_from_model_replies() {
    assert_eq!(queries_from_reply("[\"auth flow\", \"tokens\"]", "raw"), vec!["auth flow", "tokens"]);
    assert_eq!(queries_from_reply("{\"queries\": [\"x\", 1, \"y\"]}", "raw"), vec!["x", "y"]);
    assert_eq!(queries_from_reply("not json", "raw text"), vec!["raw text"]);
    assert_eq!(queries_from_reply("{\"n\": 3}", "raw"), vec!["raw"]);
    assert_eq!(
        queries_from_reply("[\"a\",\"b\",\"c\",\"d\",\"e\",\"f\",\"g\"]", "raw"),
        vec!["a", "b", "c", "d", "e"]
    );
}

#[test]
fn tool_calls_are_planned() {
    let kbs = vec!["notes".to_string()];
    assert!(matches!(plan_tool_call(None, true, true, None, &kbs), ToolAction::Reject(m) if m == "Missing tool name"));
    assert!(matches!(plan_tool_call(Some("memory_search"), false, false, None, &kbs), ToolAction::Reject(m) if m == "Missing query argument"));
    assert!(matches!(plan_tool_call(Some("memory_search"), true, false, Some("work"), &kbs), ToolAction::ToolError(m) if m == "KB 'work' not found"));
    assert!(matches!(plan_tool_call(Some("memory_search"), true, false, Some("notes"), &kbs), ToolAction::Run(McpTool::MemorySearch)));
    assert!(matches!(plan_tool_call(Some("memory_status"), false, false, Some("x"), &kbs), ToolAction::ToolError(m) if m == "KB 'x' not found"));
    assert!(matches!(plan_tool_call(Some("retrieve_chunk"), false, false, None, &kbs), ToolAction::Reject(m) if m == "Missing chunk_id argument"));
    assert!(matches!(plan_tool_call(Some("frobnicate"), true, true, None, &kbs), ToolAction::ToolError(m) if m == "Unknown tool: frobnicate"));
    assert!(matches!(plan_tool_call(Some("memory_sync"), false, false, Some("x"), &kbs), ToolAction::Run(McpTool::MemorySync)));
}

#[test]
fn sync_plan_keeps_pending_extractions() {
    let upserts = vec![("a.md".to_string(), "/k/a.md".to_string())];
    let unextracted = vec!["a.md".to_string(), "b.md".to_string(), "gone.md".to_string()];
    let local = vec![("a.md".to_string(), "/k/a.md".to_string()), ("b.md".to_string(), "/k/b.md".to_string())];
    let plan = sync_plan(&upserts, 0, &unextracted, &local, false, false, true);
    assert_eq!(plan.pending, vec![("b.md".to_string(), "/k/b.md".to_string())]);
    assert!(!plan.nothing_to_do && !plan.only_pending && plan.embed_updated && !plan.reembed_everything);
    assert_eq!(plan.to_extract.len(), 2);
    let idle = sync_plan(&Vec::new(), 0, &Vec::new(), &local, false, false, true);
    assert!(idle.nothing_to_do);
    let forced = sync_plan(&Vec::new(), 0, &unextracted, &local, true, true, true);
    assert!(forced.pending.is_empty() && forced.reembed_everything && !forced.nothing_to_do);
    let pend = sync_plan(&Vec::new(), 0, &unextracted, &local, false, false, false);
    assert!(pend.only_pending && !pend.embed_updated);
}

#[test]
fn wizard_edits_replace_by_name() {
    let p = |n: &str, k: &str| ProviderEntry { name: n.to_string(), api_key: k.to_string(), base_url: String::new() };
    let ps = with_provider(vec![p("gemini", "A"), p("openai", "B")], p("gemini", "C"));
    let names: Vec<(&str, &str)> = ps.iter().map(|e| (e.name.as_str(), e.api_key.as_str())).collect();
    assert_eq!(names, vec![("openai", "B"), ("gemini", "C")]);
    let kb = |n: &str| KbConfig { name: n.to_string(), watch_paths: Vec::new(), description: None, auto_sync: true };
    let ks = with_kb(vec![kb("a"), kb("b")], kb("a"));
    assert_eq!(ks.iter().map(|k| k.name.as_str()).collect::<Vec<_>>(), vec!["b", "a"]);
    assert!(is_project_local(".brainjar") && is_project_local("./data") && is_project_local("/srv/bj"));
    assert!(!is_project_local("~/.brainjar"));
}

#[test]
fn api_keys_read_the_environment() {
    let env = vec![("GEMINI_API_KEY".to_string(), "secret".to_string())];
    assert_eq!(expand_env_value("${GEMINI_API_KEY}", &env), "secret");
    assert_eq!(expand_env_value("${MISSING}", &env), "");
    assert_eq!(expand_env_value("plain", &env), "plain");
    let providers = vec![("gemini".to_string(), ProviderConfig { api_key: Some("${GEMINI_API_KEY}".to_string()), base_url: None })];
    assert_eq!(resolve_api_key(&providers, "gemini", Some("legacy"), &env), Some("secret".to_string()));
    assert_eq!(resolve_api_key(&providers, "openai", Some("legacy"), &env), Some("legacy".to_string()));
    assert_eq!(resolve_api_key(&providers, "openai", None, &env), None);
}

use brainjar::config::{choose_api_key, env_var_reference, resolve_base_url, EmbeddingConfig, ExtractionConfig, ProviderConfig};
use brainjar::db::{db_file_name, neighbor_window, parse_vec_dimensions, vec_table_action, vec_table_sql, VecTableAction};
use brainjar::embed::{EmbedRoute, Embedder, TaskType};
use brainjar::extract::{build_prompt, clean_reply, ExtractRoute, Extractor};
use brainjar::fuzzy::{correct_query, correct_word, extract_tokens, levenshtein, split_camel_case, split_compound, vocabulary_counts};
use brainjar::graph::{graph_db_file_name, match_tier, plan_ingest, Entity, GraphOp, Relationship};
use brainjar::init::{
    decimal_string, default_dimensions, default_embed_model, default_extract_model, default_model_index,
    default_storage_index, dimension_choices, format_api_key_value, gitignore_update, is_env_var_name,
    order_by_name, parse_dimensions, parse_usize, render_brainjar_toml, tilde_form, KbConfig, ProviderEntry,
    WizardDefaults,
};
use brainjar::local_search::{is_local_text_ext, scan_file, top_matches, LocalMatch};
use brainjar::mcp::{context_lines, format_retrieval, method_kind, mode_from_name, not_excluded, status_line, tool_kind, McpMethod, McpTool};
use brainjar::search::{filename_matches, keep_first_chunks, keep_first_paths, normalize_content, sanitize_fts_query, SearchEngine};
use brainjar::sync::{batches, compute_changes, hash_content, ignore_patterns, is_indexable, kbs_to_sync, needs_reembed, relative_path, skip_dir, LocalFile};
use brainjar::treesitter::{first_line, generic_kind_to_entity_type, is_import_kind, kind_to_chunk_type, slice_lines, top_level_kinds};
use brainjar::state::{state_path, FileState, KbState, State};
use brainjar::watch::{lock_file_path, lock_owner, pid_file_path};
use brainjar::db::ChunkRow;

// ─── Fuzzy correction ────────────────────────────────────────────────────────

#[test]
fn correct_query_corrects_each_word() {
    let vocab = vec![("sync".to_string(), 10), ("search".to_string(), 5)];
    let (q, corrections) = correct_query("  Synk   serch ", &vocab);
    assert_eq!(q, "sync search");
    assert_eq!(corrections, vec![("synk".to_string(), "sync".to_string()), ("serch".to_string(), "search".to_string())]);
}

#[test]
fn correct_query_keeps_known_and_far_words() {
    let vocab = vec![("sync".to_string(), 10)];
    let (q, corrections) = correct_query("sync zzzzzz", &vocab);
    assert_eq!(q, "sync zzzzzz");
    assert!(corrections.is_empty());
}

#[test]
fn correct_word_prefers_frequent_on_ties() {
    let vocab = vec![("cart".to_string(), 1), ("card".to_string(), 7), ("care".to_string(), 7)];
    assert_eq!(correct_word("carx", &vocab), "card");
}

#[test]
fn correct_word_prefers_closer_over_frequent() {
    let vocab = vec![("graph".to_string(), 100), ("grape".to_string(), 1)];
    assert_eq!(correct_word("grapes", &vocab), "grape");
}

#[test]
fn correct_word_long_words_reach_three_edits() {
    let vocab = vec![("knowledge".to_string(), 1)];
    assert_eq!(correct_word("knowlxxxe", &vocab), "knowledge");
    let short = vec![("graph".to_string(), 1)];
    assert_eq!(correct_word("gxxxh", &short), "gxxxh");
}

#[test]
fn levenshtein_length_gap_is_reported_directly() {
    assert_eq!(levenshtein("a", "abcdefg"), 6);
    assert_eq!(levenshtein("abcde", "x"), 5);
    assert_eq!(levenshtein("abc", "cba"), 2);
}

#[test]
fn levenshtein_is_symmetric_on_examples() {
    assert_eq!(levenshtein("sitting", "kitten"), levenshtein("kitten", "sitting"));
    assert_eq!(levenshtein("flaw", "lawn"), 2);
}

#[test]
fn extract_tokens_lowercases_and_keeps_separators() {
    let tokens = extract_tokens("Use knowledge_graph and Ingest-Entities, 1abc x9z");
    assert_eq!(tokens, vec!["use", "knowledge_graph", "and", "ingest-entities", "abc", "x9z"]);
}

#[test]
fn split_camel_case_parts() {
    assert_eq!(split_camel_case("KnowledgeGraph"), vec!["Knowledge", "Graph"]);
    assert_eq!(split_camel_case("knowledgeGraph"), vec!["knowledge", "Graph"]);
    assert_eq!(split_camel_case("plain"), vec!["plain"]);
}

#[test]
fn split_compound_skips_short_and_repeated_parts() {
    assert_eq!(split_compound("a_bc_graph_graph"), vec!["a_bc_graph_graph", "graph"]);
    assert_eq!(split_compound("Simple"), vec!["simple"]);
}

#[test]
fn vocabulary_counts_words_across_documents() {
    let docs = vec!["Graph search graph".to_string(), "knowledge_graph".to_string()];
    let counts = vocabulary_counts(&docs);
    assert_eq!(
        counts,
        vec![
            ("graph".to_string(), 3),
            ("search".to_string(), 1),
            ("knowledge_graph".to_string(), 1),
            ("knowledge".to_string(), 1),
        ]
    );
}

// ─── Configuration ───────────────────────────────────────────────────────────

fn providers() -> Vec<(String, ProviderConfig)> {
    vec![
        ("gemini".to_string(), ProviderConfig { api_key: Some("from-providers".to_string()), base_url: None }),
        ("ollama".to_string(), ProviderConfig { api_key: None, base_url: Some("http://gpu:11434".to_string()) }),
    ]
}

#[test]
fn api_key_prefers_providers_section() {
    assert_eq!(choose_api_key(&providers(), "gemini", Some("legacy-key")).as_deref(), Some("from-providers"));
    assert_eq!(choose_api_key(&providers(), "openai", Some("legacy-key")).as_deref(), Some("legacy-key"));
    assert_eq!(choose_api_key(&providers(), "ollama", None), None);
}

#[test]
fn base_url_prefers_providers_section() {
    assert_eq!(resolve_base_url(&providers(), "ollama", Some("http://localhost:11434")).as_deref(), Some("http://gpu:11434"));
    assert_eq!(resolve_base_url(&providers(), "gemini", Some("http://x")).as_deref(), Some("http://x"));
}

#[test]
fn env_var_references() {
    assert_eq!(env_var_reference("${OPENAI_KEY}").as_deref(), Some("OPENAI_KEY"));
    assert_eq!(env_var_reference("sk-literal-key"), None);
    assert_eq!(env_var_reference("${}").as_deref(), Some(""));
}

// ─── Embedding ───────────────────────────────────────────────────────────────

fn embed_config(provider: &str, model: &str) -> EmbeddingConfig {
    EmbeddingConfig { provider: provider.to_string(), model: model.to_string(), api_key: None, base_url: None, dimensions: 8 }
}

#[test]
fn embedder_routes_by_provider_and_model() {
    assert_eq!(Embedder::new(&embed_config("gemini", "gemini-embedding-2-preview"), None, None).route(), EmbedRoute::GeminiV2);
    assert_eq!(Embedder::new(&embed_config("gemini", "gemini-embedding-001"), None, None).route(), EmbedRoute::GeminiV1);
    assert_eq!(Embedder::new(&embed_config("openai", "x"), None, None).route(), EmbedRoute::OpenAi);
    assert_eq!(Embedder::new(&embed_config("ollama", "x"), None, None).route(), EmbedRoute::Ollama);
    assert_eq!(Embedder::new(&embed_config("unknown_provider", "x"), None, None).route(), EmbedRoute::Unknown);
}

#[test]
fn embedder_endpoints() {
    let e = Embedder::new(&embed_config("ollama", "m"), None, None);
    assert_eq!(e.ollama_url(), "http://localhost:11434/api/embed");
    let e = Embedder::new(&embed_config("ollama", "m"), None, Some("http://gpu:1".to_string()));
    assert_eq!(e.ollama_url(), "http://gpu:1/api/embed");
    let g = Embedder::new(&embed_config("gemini", "gemini-embedding-001"), None, None);
    assert_eq!(
        g.gemini_url("KEY"),
        "https://generativelanguage.googleapis.com/v1beta/models/gemini-embedding-001:embedContent?key=KEY"
    );
}

#[test]
fn embedder_missing_key_message() {
    let e = Embedder::new(&embed_config("gemini", "m"), None, None);
    assert_eq!(
        e.require_api_key().unwrap_err().message(),
        "No api_key configured for embedding provider 'gemini'. Set it under [providers.gemini] in brainjar.toml."
    );
}

#[test]
fn gemini_v2_inputs_carry_titles() {
    let e = Embedder::new(&embed_config("gemini", "gemini-embedding-2-preview"), None, None);
    let inputs = e.gemini_v2_inputs(&[("body", Some("Title")), ("other", None)], TaskType::RetrievalDocument);
    assert_eq!(inputs, vec!["title: Title | text: body", "title: none | text: other"]);
}

// ─── Search ──────────────────────────────────────────────────────────────────

#[test]
fn sanitize_removes_operators_and_collapses_space() {
    assert_eq!(sanitize_fts_query("  \"hello\"  (wor*ld)  -x + ~y^ "), "hello world x y");
    assert_eq!(sanitize_fts_query("?*()"), "");
}

#[test]
fn normalize_collapses_whitespace() {
    assert_eq!(normalize_content("  a \n\t b  c "), "a b c");
    assert_eq!(normalize_content("   "), "");
}

#[test]
fn filename_matches_rank_exact_before_substring() {
    let paths = vec![
        "notes/meeting-notes.md".to_string(),
        "docs/Search.md".to_string(),
        "src/other.rs".to_string(),
        "a/search_engine.rs".to_string(),
    ];
    let hits = filename_matches(&paths, "SEARCH");
    assert_eq!(hits, vec![("docs/Search.md".to_string(), 2), ("a/search_engine.rs".to_string(), 1)]);
    let two = filename_matches(&paths, "meeting notes");
    assert_eq!(two, vec![("notes/meeting-notes.md".to_string(), 2)]);
    assert!(filename_matches(&paths, "   ").is_empty());
}

#[test]
fn keep_first_by_path_and_chunk() {
    let paths = vec!["a".to_string(), "b".to_string(), "a".to_string()];
    assert_eq!(keep_first_paths(&paths), vec![true, true, false]);
    let keys = vec![(Some(1), "x".to_string()), (None, "x".to_string()), (Some(1), "y".to_string()), (None, "x".to_string())];
    assert_eq!(keep_first_chunks(&keys), vec![true, true, false, false]);
}

#[test]
fn mcp_mode_names() {
    assert!(mode_from_name("local").run_local());
    assert!(!mode_from_name("local").run_fts());
    assert!(mode_from_name("text").has(SearchEngine::Text));
    assert!(mode_from_name("all").run_fuzzy());
    assert!(mode_from_name("filename").run_filename());
}

// ─── Graph ───────────────────────────────────────────────────────────────────

#[test]
fn plan_ingest_orders_upserts() {
    let entities = vec![Entity { name: "Brainjar".to_string(), entity_type: "project".to_string(), description: "AI memory tool".to_string() }];
    let rels = vec![Relationship {
        source: "Brainjar".to_string(),
        target: "SQLite DB".to_string(),
        relation: "depends on".to_string(),
        description: "stores data".to_string(),
    }];
    let ops = plan_ingest("notes/arch.md", &entities, &rels);
    assert_eq!(ops.len(), 6);
    match &ops[0] {
        GraphOp::Node { id, props, label } => {
            assert_eq!(id, "notes_arch_md");
            assert_eq!(label, "Document");
            assert_eq!(props[0], ("path".to_string(), "notes/arch.md".to_string()));
        }
        _ => panic!("expected the document node first"),
    }
    match &ops[2] {
        GraphOp::Edge { from, to, rel_type, .. } => {
            assert_eq!(from, "notes_arch_md");
            assert_eq!(to, "brainjar");
            assert_eq!(rel_type, "MENTIONS");
        }
        _ => panic!("expected the MENTIONS edge"),
    }
    match &ops[5] {
        GraphOp::Edge { from, to, rel_type, props } => {
            assert_eq!(from, "brainjar");
            assert_eq!(to, "sqlite_db");
            assert_eq!(rel_type, "depends_on");
            assert_eq!(props.len(), 2);
        }
        _ => panic!("expected the relationship edge"),
    }
}

#[test]
fn match_tiers() {
    assert_eq!(match_tier("Brainjar", "brainjar"), 3);
    assert_eq!(match_tier("MyProject", "my"), 2);
    assert_eq!(match_tier("SharedEntity", "entity other"), 1);
    assert_eq!(match_tier("Rust", "xyzzy"), 0);
    assert_eq!(match_tier("Rust", "ru rust"), 3);
    assert_eq!(graph_db_file_name("main"), "main_graph.db");
}

// ─── Setup wizard ────────────────────────────────────────────────────────────

#[test]
fn env_var_names_and_key_values() {
    assert!(is_env_var_name("GEMINI_API_KEY"));
    assert!(!is_env_var_name("sk-abc"));
    assert!(!is_env_var_name(""));
    assert_eq!(format_api_key_value(""), "\"\"");
    assert_eq!(format_api_key_value("OPENAI_API_KEY"), "\"${OPENAI_API_KEY}\"");
    assert_eq!(format_api_key_value("sk-123"), "\"sk-123\"");
}

#[test]
fn numbers_round_trip() {
    assert_eq!(decimal_string(0), "0");
    assert_eq!(decimal_string(3072), "3072");
    assert_eq!(parse_usize("+42"), Some(42));
    assert_eq!(parse_usize("007"), Some(7));
    assert_eq!(parse_usize(""), None);
    assert_eq!(parse_usize("+"), None);
    assert_eq!(parse_usize("-1"), None);
    assert_eq!(parse_usize("12a"), None);
    assert_eq!(parse_usize("99999999999999999999999"), None);
    assert_eq!(parse_usize(&decimal_string(usize::MAX)), Some(usize::MAX));
    assert_eq!(parse_dimensions(" 1024 ", "gemini-embedding-001"), 1024);
    assert_eq!(parse_dimensions("lots", "text-embedding-3-small"), 1536);
}

#[test]
fn provider_defaults() {
    assert_eq!(default_dimensions("gemini-embedding-2-preview"), 3072);
    assert_eq!(default_dimensions("custom"), 768);
    assert_eq!(dimension_choices("text-embedding-3-large"), vec![(3072, true), (1024, false)]);
    assert!(dimension_choices("custom").is_empty());
    assert_eq!(default_embed_model("ollama"), "nomic-embed-text");
    assert_eq!(default_embed_model("other"), "text-embedding-004");
    assert_eq!(default_extract_model("openai"), "gpt-4o-mini");
    assert_eq!(default_extract_model("other"), "gemini-3.1-flash-lite-preview");
    assert_eq!(default_storage_index(Some("~/.brainjar"), "~/.brainjar"), 0);
    assert_eq!(default_storage_index(Some(".brainjar"), "~/x"), 1);
    assert_eq!(default_storage_index(Some("/data"), "~/x"), 2);
    assert_eq!(default_storage_index(None, "~/x"), 0);
    assert_eq!(default_model_index(Some("b"), "a", "b"), 1);
    assert_eq!(default_model_index(Some("c"), "a", "b"), 2);
}

#[test]
fn test_generate_toml_data_dir_custom() {
    let content = render_brainjar_toml("/tmp/brainjar-test-custom/.brainjar", &[], None, None, None, None, None, &[]);
    assert!(content.contains("data_dir = \"/tmp/brainjar-test-custom/.brainjar\""));
}

#[test]
fn test_generate_toml_data_dir_tilde() {
    let content = render_brainjar_toml("~/.brainjar", &[], None, None, None, None, None, &[]);
    assert!(content.contains("data_dir = \"~/.brainjar\""));
}

#[test]
fn render_toml_full_text() {
    let providers = vec![
        ProviderEntry { name: "gemini".to_string(), api_key: "GEMINI_API_KEY".to_string(), base_url: String::new() },
        ProviderEntry { name: "ollama".to_string(), api_key: String::new(), base_url: "http://localhost:11434".to_string() },
    ];
    let kbs = vec![KbConfig {
        name: "notes".to_string(),
        watch_paths: vec!["~/notes".to_string(), "say \"hi\"".to_string()],
        description: Some("My notes".to_string()),
        auto_sync: true,
    }];
    let text = render_brainjar_toml(
        "~/.brainjar",
        &providers,
        Some("gemini"),
        Some("gemini-embedding-001"),
        None,
        Some("gemini"),
        Some("gemini-3.1-flash-lite-preview"),
        &kbs,
    );
    let expected = "# brainjar.toml — Knowledge base configuration\n# Generated by `brainjar init`\n\n\
data_dir = \"~/.brainjar\"\n\n\
[providers]\n\
gemini.api_key = \"${GEMINI_API_KEY}\"\n\
ollama.base_url = \"http://localhost:11434\"\n\n\
[embeddings]\n\
provider   = \"gemini\"\n\
model      = \"gemini-embedding-001\"\n\
dimensions = 768\n\n\
[extraction]\n\
provider = \"gemini\"\n\
model    = \"gemini-3.1-flash-lite-preview\"\n\
enabled  = true\n\n\
[knowledge_bases.notes]\n\
description = \"My notes\"\n\
watch_paths = [\"~/notes\", \"say \\\"hi\\\"\"]\n\
auto_sync   = true\n\n";
    assert_eq!(text, expected);
}

#[test]
fn gitignore_updates() {
    assert_eq!(gitignore_update(None, "./.brainjar/").as_deref(), Some("# brainjar local DBs\n.brainjar/\n"));
    assert_eq!(gitignore_update(Some("target\n.brainjar\n"), ".brainjar"), None);
    assert_eq!(gitignore_update(Some("target\n\n"), "data"), Some("target\n# brainjar local DBs\ndata/\n".to_string()));
}

#[test]
fn tilde_forms() {
    assert_eq!(tilde_form("/home/u/.brainjar", Some("/home/u")), "~/.brainjar");
    assert_eq!(tilde_form("/home/u", Some("/home/u")), "~");
    assert_eq!(tilde_form("/tmp/x", Some("/home/u")), "/tmp/x");
    assert_eq!(tilde_form("/tmp/x", None), "/tmp/x");
}

#[test]
fn name_order_is_stable() {
    let names = vec!["openai".to_string(), "gemini".to_string(), "ollama".to_string(), "gemini".to_string()];
    assert_eq!(order_by_name(&names), vec![1, 3, 2, 0]);
}

#[test]
fn wizard_defaults_sort_entries() {
    let providers = vec![
        ("openai".to_string(), ProviderConfig { api_key: Some("k".to_string()), base_url: None }),
        ("gemini".to_string(), ProviderConfig { api_key: None, base_url: Some("u".to_string()) }),
    ];
    let kbs = vec![
        KbConfig { name: "zeta".to_string(), watch_paths: vec![], description: None, auto_sync: false },
        KbConfig { name: "alpha".to_string(), watch_paths: vec!["x".to_string()], description: None, auto_sync: true },
    ];
    let emb = Some(EmbeddingConfig { provider: "gemini".to_string(), model: "m".to_string(), api_key: None, base_url: None, dimensions: 3 });
    let d = WizardDefaults::from_config(&Some("~/.brainjar".to_string()), &providers, &emb, &None, &kbs);
    assert_eq!(d.providers[0].name, "gemini");
    assert_eq!(d.providers[0].api_key, "");
    assert_eq!(d.providers[0].base_url, "u");
    assert_eq!(d.providers[1].name, "openai");
    assert_eq!(d.knowledge_bases[0].name, "alpha");
    assert_eq!(d.embed_dimensions, Some(3));
    assert_eq!(d.extract_provider, None);
}

// ─── Sync ────────────────────────────────────────────────────────────────────

#[test]
fn sync_changes_update_new_changed_and_remove_gone() {
    let same = hash_content(b"same");
    let local = vec![
        LocalFile { rel_path: "new.md".to_string(), abs_path: "/k/new.md".to_string(), hash: Some(hash_content(b"n")) },
        LocalFile { rel_path: "same.md".to_string(), abs_path: "/k/same.md".to_string(), hash: Some(same.clone()) },
        LocalFile { rel_path: "changed.md".to_string(), abs_path: "/k/changed.md".to_string(), hash: Some(hash_content(b"v2")) },
        LocalFile { rel_path: "unreadable.md".to_string(), abs_path: "/k/unreadable.md".to_string(), hash: None },
    ];
    let db = vec![
        ("same.md".to_string(), same.clone()),
        ("changed.md".to_string(), hash_content(b"v1")),
        ("unreadable.md".to_string(), hash_content(b"u")),
        ("gone.md".to_string(), hash_content(b"g")),
    ];
    let changes = compute_changes(&local, &db, false);
    assert_eq!(
        changes.to_upsert,
        vec![
            ("new.md".to_string(), "/k/new.md".to_string()),
            ("changed.md".to_string(), "/k/changed.md".to_string()),
            ("unreadable.md".to_string(), "/k/unreadable.md".to_string()),
        ]
    );
    assert_eq!(changes.to_delete, vec!["gone.md".to_string()]);
    let forced = compute_changes(&local, &db, true);
    assert_eq!(forced.to_upsert.len(), 4);
}

#[test]
fn kbs_to_sync_selection() {
    let kbs = vec![("a".to_string(), false), ("b".to_string(), true), ("c".to_string(), true)];
    assert_eq!(kbs_to_sync(None, &kbs).unwrap(), vec![1, 2]);
    assert_eq!(kbs_to_sync(Some("a"), &kbs).unwrap(), vec![0]);
    assert_eq!(kbs_to_sync(Some("zz"), &kbs).unwrap_err(), "zz");
}

#[test]
fn reembed_and_batches() {
    assert!(needs_reembed(true, 0, 0, 0));
    assert!(needs_reembed(false, 5, 0, 768));
    assert!(!needs_reembed(false, 5, 0, 0));
    assert!(!needs_reembed(false, 5, 5, 768));
    assert_eq!(batches(250, 100), vec![(0, 100), (100, 200), (200, 250)]);
    assert!(batches(0, 100).is_empty());
    assert_eq!(batches(100, 100), vec![(0, 100)]);
}

#[test]
fn ignore_patterns_and_indexing() {
    let pats = ignore_patterns("# comment\n\n  drafts/  \n*.log\n[\nsecret*\n");
    assert_eq!(pats, vec!["drafts", "*.log", "secret*"]);
    assert!(is_indexable(&pats, "/k/notes/a.MD", "a.MD"));
    assert!(!is_indexable(&pats, "/k/notes/secret.md", "secret.md"));
    assert!(!is_indexable(&pats, "/k/notes/pic.png", "pic.png"));
    assert!(is_indexable(&vec!["[".to_string()], "/k/x.md", "x.md"));
    assert!(skip_dir("node_modules"));
    assert!(skip_dir(".cache"));
    assert!(!skip_dir("src"));
    assert_eq!(relative_path("/cfg/notes/a.md", "/cfg"), "notes/a.md");
    assert_eq!(relative_path("/other/a.md", "/cfg"), "/other/a.md");
}

// ─── Database helpers ────────────────────────────────────────────────────────

#[test]
fn vector_table_helpers() {
    assert_eq!(parse_vec_dimensions("CREATE VIRTUAL TABLE chunks_vec USING vec0(chunk_id INTEGER PRIMARY KEY, embedding float[1024])"), Some(1024));
    assert_eq!(parse_vec_dimensions("CREATE TABLE t(x)"), None);
    assert_eq!(parse_vec_dimensions("float[abc]"), None);
    assert_eq!(vec_table_action(Some(768), 768), VecTableAction::Keep);
    assert_eq!(vec_table_action(Some(768), 1024), VecTableAction::Recreate);
    assert_eq!(vec_table_action(None, 1024), VecTableAction::Create);
    assert_eq!(
        vec_table_sql("chunks_vec", "chunk_id", 384),
        "CREATE VIRTUAL TABLE chunks_vec USING vec0(chunk_id INTEGER PRIMARY KEY, embedding float[384])"
    );
    assert_eq!(parse_vec_dimensions(&vec_table_sql("t", "id", 3072)), Some(3072));
    assert_eq!(db_file_name("notes"), "notes.db");
}

#[test]
fn neighbor_windows() {
    let ids = vec![10, 11, 12, 13, 14];
    assert_eq!(neighbor_window(&ids, 12, 1, 5), Some((1, 2, 5)));
    assert_eq!(neighbor_window(&ids, 10, 3, 1), Some((0, 0, 2)));
    assert_eq!(neighbor_window(&ids, 99, 1, 1), None);
}

// ─── Extraction ──────────────────────────────────────────────────────────────

#[test]
fn extraction_prompt_and_reply_cleanup() {
    let p = build_prompt("BODY", "notes/a.md");
    assert!(p.starts_with("Extract entities and relationships from this document.\n\n"));
    assert!(p.ends_with("Document (notes/a.md):\n---\nBODY\n---"));
    assert_eq!(clean_reply("  ```json\n{\"entities\": []}\n```  "), "{\"entities\": []}");
    assert_eq!(clean_reply("```\n{}\n``````"), "{}");
    assert_eq!(clean_reply("{}"), "{}");
}

#[test]
fn extractor_routes_and_keys() {
    let cfg = ExtractionConfig { provider: "openai".to_string(), model: "gpt-4o-mini".to_string(), api_key: None, base_url: None, enabled: true };
    let e = Extractor::new(&cfg, Some(String::new()), None);
    assert_eq!(e.route(), ExtractRoute::OpenAi);
    assert!(e.require_api_key().unwrap_err().message().contains("extraction provider 'openai'"));
    assert_eq!(e.ollama_url(), "http://localhost:11434/api/generate");
}

// ─── MCP ─────────────────────────────────────────────────────────────────────

#[test]
fn mcp_dispatch_names() {
    assert_eq!(method_kind("tools/call"), McpMethod::ToolsCall);
    assert_eq!(method_kind("bogus"), McpMethod::Unknown);
    assert_eq!(tool_kind("retrieve_chunk"), McpTool::RetrieveChunk);
    assert_eq!(tool_kind("memory_delete"), McpTool::Unknown);
    assert!(not_excluded(None, &vec![1]));
    assert!(!not_excluded(Some(1), &vec![3, 1]));
    assert!(not_excluded(Some(2), &vec![3, 1]));
    assert_eq!(status_line("notes", 12, "never"), "notes: 12 documents, last sync: never");
    assert_eq!(status_line("x", -1, "t"), "x: -1 documents, last sync: t");
}

#[test]
fn retrieval_text_and_context() {
    let lines = ["l0", "l1", "l2", "l3", "l4"];
    let (before, after) = context_lines(&lines, 2, 2, 5, 1);
    assert_eq!(before, vec!["l0", "l1"]);
    assert_eq!(after, vec!["l3"]);
    let (_, none_after) = context_lines(&lines, 4, 4, 0, 3);
    assert!(none_after.is_empty());
    let prev = vec![ChunkRow { chunk_id: 1, doc_id: 1, content: "P".to_string(), line_start: 1, line_end: 2, chunk_type: "paragraph".to_string() }];
    let text = format_retrieval("a.md", 3, 4, "paragraph", "BODY", &prev, &before, &after, &[]);
    assert_eq!(
        text,
        "─── a.md:3-4 (paragraph) ───\n[prev] lines 1-2:\nP\n\n[context before]:\nl0\nl1\n\n[match]:\nBODY\n\n[context after]:\nl3\n"
    );
}

// ─── Local search ────────────────────────────────────────────────────────────

#[test]
fn local_exact_scan_and_ranking() {
    let mut acc: Vec<LocalMatch> = Vec::new();
    scan_file(&mut acc, "a.md", "Intro\n  The Graph engine  \n\nno match here\ngraph again\n", "GRAPH", true, 10);
    assert_eq!(acc.len(), 2);
    assert_eq!(acc[0].line, 2);
    assert_eq!(acc[0].matched_text, "The Graph engine");
    assert_eq!(acc[0].score_key, 256);
    assert_eq!(acc[1].line, 5);
    let top = top_matches(&acc, 1);
    assert_eq!(top.len(), 1);
    assert_eq!(top[0].line, 2);
}

#[test]
fn local_fuzzy_scan_scores_lines() {
    let mut acc: Vec<LocalMatch> = Vec::new();
    scan_file(&mut acc, "b.md", "knowledge graph\nzzz\n", "kngr", false, 10);
    assert_eq!(acc.len(), 1);
    assert_eq!(acc[0].line, 1);
    assert!(acc[0].score_key > 0 && acc[0].score_key <= 256);
    assert!(is_local_text_ext(""));
    assert!(is_local_text_ext("log"));
    assert!(!is_local_text_ext("png"));
}

#[test]
fn local_ranking_is_stable_by_descending_score() {
    let m = |line: u32, score: u32| LocalMatch { file: "f".to_string(), line, matched_text: String::new(), score_key: score };
    let all = vec![m(1, 10), m(2, 200), m(3, 10), m(4, 256)];
    let top = top_matches(&all, 10);
    let lines: Vec<u32> = top.iter().map(|r| r.line).collect();
    assert_eq!(lines, vec![4, 2, 1, 3]);
}

// ─── Code structure helpers ──────────────────────────────────────────────────

#[test]
fn code_structure_tables() {
    assert_eq!(top_level_kinds("py"), vec!["function_definition", "class_definition", "import_statement", "import_from_statement", "decorated_definition"]);
    assert!(top_level_kinds("json").is_empty());
    assert!(top_level_kinds("unknown").is_empty());
    assert!(is_import_kind("use_declaration"));
    assert!(!is_import_kind("function_item"));
    assert_eq!(kind_to_chunk_type("impl_item"), "impl");
    assert_eq!(kind_to_chunk_type("preproc_include"), "import");
    assert_eq!(kind_to_chunk_type("weird"), "module_level");
    assert_eq!(generic_kind_to_entity_type("method_definition"), "function");
    assert_eq!(generic_kind_to_entity_type("class_specifier"), "class");
    assert_eq!(generic_kind_to_entity_type("defmodule"), "module");
    assert_eq!(generic_kind_to_entity_type("type_spec"), "type_alias");
    assert_eq!(generic_kind_to_entity_type("x"), "declaration");
}

#[test]
fn line_slicing() {
    let lines = ["a", "  b  ", "c"];
    assert_eq!(slice_lines(&lines, 2, 10), "  b  \nc");
    assert_eq!(slice_lines(&lines, 0, 1), "a");
    assert_eq!(first_line(&lines, 2), "b");
    assert_eq!(first_line(&lines, 9), "");
}

// ─── Watch mode ──────────────────────────────────────────────────────────────

#[test]
fn watch_files() {
    assert_eq!(pid_file_path("/d"), "/d/brainjar-watch.pid");
    assert_eq!(lock_file_path("/d", "kb"), "/d/kb.lock");
    assert_eq!(state_path("/cfg"), "/cfg/.brainjar/state.json");
    assert_eq!(lock_owner(" 1234\n"), Some(1234));
    assert_eq!(lock_owner("99999999999"), None);
    assert_eq!(lock_owner("pid"), None);
}

// ─── Sync state ──────────────────────────────────────────────────────────────

fn kb_with_status(status: &str) -> KbState {
    KbState {
        last_sync: Some("2024-01-01T00:00:00Z".to_string()),
        last_ingestion_job_id: None,
        last_ingestion_status: Some(status.to_string()),
        files: vec![(
            "notes.md".to_string(),
            FileState { content_hash: "ab".to_string(), s3_key: "kb/notes.md".to_string(), last_modified: "2024-01-01T00:00:00Z".to_string() },
        )],
    }
}

#[test]
fn state_reads_back_what_was_stored() {
    let mut s = State::initial();
    assert_eq!(s.version, 1);
    s.set_kb_state("memory", kb_with_status("COMPLETE"));
    let got = s.kb_state("memory");
    assert_eq!(got.last_ingestion_status.as_deref(), Some("COMPLETE"));
    assert_eq!(got.last_sync.as_deref(), Some("2024-01-01T00:00:00Z"));
    assert_eq!(got.files.len(), 1);
    assert_eq!(got.files[0].0, "notes.md");
    assert_eq!(got.files[0].1.s3_key, "kb/notes.md");
}

#[test]
fn state_store_replaces_and_leaves_others() {
    let mut s = State::initial();
    s.set_kb_state("a", kb_with_status("ONE"));
    s.set_kb_state("b", kb_with_status("TWO"));
    s.set_kb_state("a", kb_with_status("THREE"));
    assert_eq!(s.knowledge_bases.len(), 2);
    assert_eq!(s.kb_state("a").last_ingestion_status.as_deref(), Some("THREE"));
    assert_eq!(s.kb_state("b").last_ingestion_status.as_deref(), Some("TWO"));
}

#[test]
fn state_unknown_kb_is_empty() {
    let s = State::default();
    assert_eq!(s.version, 0);
    let got = s.kb_state("missing");
    assert!(got.last_sync.is_none());
    assert!(got.last_ingestion_job_id.is_none());
    assert!(got.last_ingestion_status.is_none());
    assert!(got.files.is_empty());
}

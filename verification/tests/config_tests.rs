use brainjar::config::{choose_api_key, env_var_reference, expand_path, expand_tilde, resolve_base_url, EmbeddingConfig, ProviderConfig};

fn providers(entries: &[(&str, Option<&str>, Option<&str>)]) -> Vec<(String, ProviderConfig)> {
    entries
        .iter()
        .map(|(n, k, u)| {
            (n.to_string(), ProviderConfig { api_key: k.map(|s| s.to_string()), base_url: u.map(|s| s.to_string()) })
        })
        .collect()
}

/// A configured value with a literal taken as it is.
fn literal_value(key: &str) -> String {
    match env_var_reference(key) {
        Some(_) => String::new(),
        None => key.to_string(),
    }
}

#[test]
fn test_expand_env_var_literal() {
    let result = literal_value("sk-literal-key");
    assert_eq!(result, "sk-literal-key");
}

#[test]
fn test_resolve_api_key_providers_section_takes_priority() {
    let table = providers(&[("gemini", Some("from-providers"), None)]);
    let key = choose_api_key(&table, "gemini", Some("legacy-key"));
    assert_eq!(key.as_deref(), Some("from-providers"));
}

#[test]
fn test_resolve_api_key_legacy_fallback() {
    let table = providers(&[]);
    let key = choose_api_key(&table, "openai", Some("legacy-key"));
    assert_eq!(key.as_deref(), Some("legacy-key"));
}

#[test]
fn test_resolve_api_key_none_when_missing() {
    let table = providers(&[]);
    let key = choose_api_key(&table, "openai", None);
    assert!(key.is_none());
}

#[test]
fn test_resolve_base_url_providers_priority() {
    let table = providers(&[("ollama", None, Some("http://gpu:11434"))]);
    let url = resolve_base_url(&table, "ollama", Some("http://localhost:11434"));
    assert_eq!(url.as_deref(), Some("http://gpu:11434"));
}

#[test]
fn test_resolve_base_url_legacy_fallback() {
    let table = providers(&[]);
    let url = resolve_base_url(&table, "ollama", Some("http://localhost:11434"));
    assert_eq!(url.as_deref(), Some("http://localhost:11434"));
}

#[test]
fn test_backward_compat_inline_api_key() {
    let emb = EmbeddingConfig {
        provider: "openai".to_string(),
        model: "text-embedding-3-small".to_string(),
        api_key: Some("inline-key".to_string()),
        base_url: None,
        dimensions: 1536,
    };
    assert_eq!(emb.api_key.as_deref(), Some("inline-key"));
    let resolved = choose_api_key(&providers(&[]), &emb.provider, emb.api_key.as_deref());
    assert_eq!(resolved.as_deref(), Some("inline-key"));
}

#[test]
fn test_expand_watch_paths_relative() {
    let paths = vec![expand_path("notes", Some("/home/u"), "/tmp")];
    assert_eq!(paths.len(), 1);
    assert!(paths[0].contains("notes"));
}

#[test]
fn test_expand_path_absolute() {
    let expanded = expand_path("/absolute/path", Some("/home/u"), "/some/dir");
    assert_eq!(expanded, "/absolute/path");
}

// ─── Home and configuration paths ────────────────────────────────────────────

#[test]
fn expand_path_variants() {
    assert_eq!(expand_path("~/notes", Some("/home/u"), "/cfg"), "/home/u/notes");
    assert_eq!(expand_path("~", Some("/home/u"), "/cfg"), "/home/u");
    assert_eq!(expand_path("notes/a", Some("/home/u"), "/cfg"), "/cfg/notes/a");
    assert_eq!(expand_path("~/notes", None, "/cfg"), "/cfg/~/notes");
}

#[test]
fn expand_tilde_variants() {
    assert_eq!(expand_tilde("~", Some("/home/u")), "/home/u");
    assert_eq!(expand_tilde("~//data", Some("/home/u")), "/home/u/data");
    assert_eq!(expand_tilde("~/.brainjar", Some("/home/u")), "/home/u/.brainjar");
    assert_eq!(expand_tilde("/var/x", Some("/home/u")), "/var/x");
    assert_eq!(expand_tilde("~/x", None), "~/x");
}

use brainjar::config::EmbeddingConfig;
use brainjar::embed::{format_gemini_v2_text, is_gemini_v2_embedding, task_type_for_query, Embedder, TaskType};

fn make_config(provider: &str, model: &str, dims: usize) -> EmbeddingConfig {
    EmbeddingConfig {
        provider: provider.to_string(),
        model: model.to_string(),
        api_key: None,
        base_url: None,
        dimensions: dims,
    }
}

#[test]
fn test_embedder_creation_gemini() {
    let cfg = make_config("gemini", "gemini-embedding-001", 3072);
    let embedder = Embedder::new(&cfg, Some("fake-key".to_string()), None);
    assert_eq!(embedder.dimensions(), 3072);
}

#[test]
fn test_embedder_creation_openai() {
    let cfg = make_config("openai", "text-embedding-3-small", 1536);
    let embedder = Embedder::new(&cfg, Some("sk-fake".to_string()), None);
    assert_eq!(embedder.dimensions(), 1536);
}

#[test]
fn test_embedder_creation_ollama() {
    let cfg = make_config("ollama", "nomic-embed-text", 384);
    let embedder = Embedder::new(&cfg, None, Some("http://localhost:11434".to_string()));
    assert_eq!(embedder.dimensions(), 384);
}

#[test]
fn test_embedder_requires_api_key_when_missing() {
    let cfg = make_config("gemini", "gemini-embedding-001", 3072);
    let embedder = Embedder::new(&cfg, None, None);
    let result = embedder.require_api_key();
    assert!(result.is_err());
    let err = result.unwrap_err().message();
    assert!(err.contains("gemini"));
}

#[test]
fn test_embedder_requires_api_key_when_empty() {
    let cfg = make_config("openai", "text-embedding-3-small", 1536);
    let embedder = Embedder::new(&cfg, Some("".to_string()), None);
    let result = embedder.require_api_key();
    assert!(result.is_err());
}

#[test]
fn test_embedder_api_key_present() {
    let cfg = make_config("openai", "text-embedding-3-small", 1536);
    let embedder = Embedder::new(&cfg, Some("sk-real-key".to_string()), None);
    let key = embedder.require_api_key().unwrap();
    assert_eq!(key, "sk-real-key");
}

#[test]
fn test_embedder_dimensions_zero_allowed() {
    let cfg = make_config("ollama", "nomic-embed-text", 0);
    let embedder = Embedder::new(&cfg, None, None);
    assert_eq!(embedder.dimensions(), 0);
}

#[test]
fn test_task_type_for_query_with_code() {
    let paths = vec!["main.rs".to_string(), "README.md".to_string()];
    assert_eq!(task_type_for_query(&paths), TaskType::CodeRetrievalQuery);
}

#[test]
fn test_task_type_for_query_without_code() {
    let paths = vec!["notes.md".to_string(), "plan.txt".to_string()];
    assert_eq!(task_type_for_query(&paths), TaskType::RetrievalQuery);
}

#[test]
fn test_task_type_gemini_v1_strings() {
    assert_eq!(TaskType::RetrievalDocument.as_gemini_v1_str(), "RETRIEVAL_DOCUMENT");
    assert_eq!(TaskType::RetrievalQuery.as_gemini_v1_str(), "RETRIEVAL_QUERY");
    assert_eq!(TaskType::CodeRetrievalQuery.as_gemini_v1_str(), "CODE_RETRIEVAL_QUERY");
}

#[test]
fn test_is_gemini_v2_embedding() {
    assert!(is_gemini_v2_embedding("gemini-embedding-2-preview"));
    assert!(is_gemini_v2_embedding("gemini-embedding-3-something"));
    assert!(!is_gemini_v2_embedding("gemini-embedding-001"));
    assert!(!is_gemini_v2_embedding("text-embedding-004"));
}

#[test]
fn test_format_gemini_v2_document() {
    let result = format_gemini_v2_text("hello world", TaskType::RetrievalDocument, Some("My Doc"));
    assert_eq!(result, "title: My Doc | text: hello world");
}

#[test]
fn test_format_gemini_v2_document_no_title() {
    let result = format_gemini_v2_text("hello world", TaskType::RetrievalDocument, None);
    assert_eq!(result, "title: none | text: hello world");
}

#[test]
fn test_format_gemini_v2_query() {
    let result = format_gemini_v2_text("find me stuff", TaskType::RetrievalQuery, None);
    assert_eq!(result, "task: search result | query: find me stuff");
}

#[test]
fn test_format_gemini_v2_code_query() {
    let result = format_gemini_v2_text("parse json", TaskType::CodeRetrievalQuery, None);
    assert_eq!(result, "task: code retrieval | query: parse json");
}

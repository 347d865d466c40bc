//! Embedding: the task types, the text formats the Gemini models expect,
//! and the decisions an embedder makes before it calls its provider.
use vstd::prelude::*;

use crate::config::{clone_opt, opt_str, EmbeddingConfig};
use crate::paths::{path_extension, spec_extension};
use crate::text::{
    contains_vec, contains_seq, from_chars, is_one_of, push_str, str_views, string_of, to_chars,
    chars_eq_str,
};

verus! {

/// Embedding task types for optimized retrieval.
#[derive(Debug, Clone, Copy, PartialEq, Eq)]
pub enum TaskType {
    /// Embedding stored documents for retrieval
    RetrievalDocument,
    /// Embedding a search query
    RetrievalQuery,
    /// Embedding a code-related search query
    CodeRetrievalQuery,
}

/// The Gemini embedding-001 task type name.
pub open spec fn gemini_v1_name(t: TaskType) -> Seq<char> {
    match t {
        TaskType::RetrievalDocument => "RETRIEVAL_DOCUMENT"@,
        TaskType::RetrievalQuery => "RETRIEVAL_QUERY"@,
        TaskType::CodeRetrievalQuery => "CODE_RETRIEVAL_QUERY"@,
    }
}

impl TaskType {
    /// Returns the Gemini embedding-001 API task type string.
    pub fn as_gemini_v1_str(self) -> (r: &'static str)
        ensures
            r@ == gemini_v1_name(self),
    {
        match self {
            TaskType::RetrievalDocument => "RETRIEVAL_DOCUMENT",
            TaskType::RetrievalQuery => "RETRIEVAL_QUERY",
            TaskType::CodeRetrievalQuery => "CODE_RETRIEVAL_QUERY",
        }
    }
}

/// The model takes its task as a text prefix rather than as a parameter.
pub open spec fn spec_is_gemini_v2(model: Seq<char>) -> bool {
    contains_seq(model, "embedding-2"@) || contains_seq(model, "embedding-3"@)
}

/// Whether the model uses the text prefix format instead of the taskType
/// parameter (gemini-embedding-2 and later).
pub fn is_gemini_v2_embedding(model: &str) -> (r: bool)
    ensures
        r == spec_is_gemini_v2(model@),
{
    let mc = to_chars(model);
    let a = to_chars("embedding-2");
    let b = to_chars("embedding-3");
    contains_vec(&mc, &a) || contains_vec(&mc, &b)
}

/// The text gemini-embedding-2 receives for `text`.
pub open spec fn spec_format_v2(text: Seq<char>, task: TaskType, title: Option<Seq<char>>) -> Seq<char> {
    match task {
        TaskType::RetrievalDocument => {
            let t = match title {
                Some(t) => t,
                None => "none"@,
            };
            "title: "@ + t + " | text: "@ + text
        },
        TaskType::RetrievalQuery => "task: search result | query: "@ + text,
        TaskType::CodeRetrievalQuery => "task: code retrieval | query: "@ + text,
    }
}

/// Formats text with the task prefix that gemini-embedding-2 expects.
pub fn format_gemini_v2_text(text: &str, task_type: TaskType, title: Option<&str>) -> (r: String)
    ensures
        r@ == spec_format_v2(
            text@,
            task_type,
            match title {
                Some(t) => Some(t@),
                None => None,
            },
        ),
{
    let mut out: Vec<char> = Vec::new();
    match task_type {
        TaskType::RetrievalDocument => {
            push_str(&mut out, "title: ");
            match title {
                Some(t) => push_str(&mut out, t),
                None => push_str(&mut out, "none"),
            }
            push_str(&mut out, " | text: ");
        },
        TaskType::RetrievalQuery => {
            push_str(&mut out, "task: search result | query: ");
        },
        TaskType::CodeRetrievalQuery => {
            push_str(&mut out, "task: code retrieval | query: ");
        },
    }
    push_str(&mut out, text);
    from_chars(&out)
}

/// File extensions that mark source code.
pub open spec fn code_extensions() -> Seq<Seq<char>> {
    seq![
        "rs"@, "py"@, "ts"@, "tsx"@, "js"@, "jsx"@, "go"@, "java"@, "kt"@, "c"@, "cpp"@, "h"@,
        "cs"@, "rb"@, "swift"@, "zig"@, "lua"@, "sh"@, "bash"@, "zsh"@, "ps1"@, "sql"@, "toml"@,
        "yaml"@, "yml"@, "json"@, "xml"@, "html"@, "css"@, "scss"@,
    ]
}

/// The path names a source code file.
pub open spec fn is_code_path(p: Seq<char>) -> bool {
    match spec_extension(p) {
        Some(e) => code_extensions().contains(e),
        None => false,
    }
}

/// The task type for embedding a document: always `RetrievalDocument` (the
/// distinction matters at query time, not at index time).
pub fn task_type_for_document(_path: &str) -> (r: TaskType)
    ensures
        r == TaskType::RetrievalDocument,
{
    TaskType::RetrievalDocument
}

fn is_code_file(p: &str) -> (r: bool)
    ensures
        r == is_code_path(p@),
{
    let exts: [&str; 30] = [
        "rs", "py", "ts", "tsx", "js", "jsx", "go", "java", "kt", "c", "cpp", "h", "cs", "rb",
        "swift", "zig", "lua", "sh", "bash", "zsh", "ps1", "sql", "toml", "yaml", "yml", "json",
        "xml", "html", "css", "scss",
    ];
    assert(str_views(exts@) =~= code_extensions());
    match path_extension(p) {
        Some(e) => {
            let ec = to_chars(e.as_str());
            is_one_of(&ec, &exts)
        },
        None => false,
    }
}

/// The task type for a search query: `CodeRetrievalQuery` when some path
/// of the knowledge base names a source code file, else `RetrievalQuery`.
pub fn task_type_for_query(paths: &[String]) -> (r: TaskType)
    ensures
        r == if exists|i: int| 0 <= i < paths@.len() && #[trigger] is_code_path(paths@[i]@) {
            TaskType::CodeRetrievalQuery
        } else {
            TaskType::RetrievalQuery
        },
{
    let mut k: usize = 0;
    while k < paths.len()
        invariant
            k <= paths.len(),
            forall|i: int| 0 <= i < k ==> !#[trigger] is_code_path(paths@[i]@),
        decreases paths.len() - k,
    {
        if is_code_file(paths[k].as_str()) {
            assert(is_code_path(paths@[k as int]@));
            return TaskType::CodeRetrievalQuery;
        }
        k = k + 1;
    }
    TaskType::RetrievalQuery
}

// ─── The embedder ────────────────────────────────────────────────────────────

/// The embedding provider a configuration selects, and what it was given.
pub struct Embedder {
    pub config: EmbeddingConfig,
    /// Resolved API key (already env-expanded, if applicable).
    pub api_key: Option<String>,
    /// Resolved base URL (used by Ollama).
    pub base_url: Option<String>,
}

/// The error of an embedder that needs a key and has none.
#[derive(Debug)]
pub struct MissingApiKey {
    pub provider: String,
}

/// The message of a missing key.
pub open spec fn missing_key_message(provider: Seq<char>) -> Seq<char> {
    "No api_key configured for embedding provider '"@ + provider + "'. Set it under [providers."@
        + provider + "] in brainjar.toml."@
}

impl MissingApiKey {
    /// The error's message.
    pub fn message(&self) -> (r: String)
        ensures
            r@ == missing_key_message(self.provider@),
    {
        let mut out: Vec<char> = Vec::new();
        push_str(&mut out, "No api_key configured for embedding provider '");
        push_str(&mut out, self.provider.as_str());
        push_str(&mut out, "'. Set it under [providers.");
        push_str(&mut out, self.provider.as_str());
        push_str(&mut out, "] in brainjar.toml.");
        from_chars(&out)
    }
}

/// A copy of an embedding configuration.
pub fn copy_embedding_config(c: &EmbeddingConfig) -> (r: EmbeddingConfig)
    ensures
        r.provider@ == c.provider@,
        r.model@ == c.model@,
        opt_str(r.api_key) == opt_str(c.api_key),
        opt_str(r.base_url) == opt_str(c.base_url),
        r.dimensions == c.dimensions,
{
    EmbeddingConfig {
        provider: c.provider.clone(),
        model: c.model.clone(),
        api_key: clone_opt(&c.api_key),
        base_url: clone_opt(&c.base_url),
        dimensions: c.dimensions,
    }
}

/// How an embedder reaches its provider.
#[derive(Debug, Clone, Copy, PartialEq, Eq)]
pub enum EmbedRoute {
    /// Gemini embedding-001: one request per text, with a taskType parameter.
    GeminiV1,
    /// Gemini embedding-2 and later: one request per text, the task as a
    /// text prefix.
    GeminiV2,
    /// OpenAI: one request for the batch.
    OpenAi,
    /// Ollama: one request for the batch, to the configured base URL.
    Ollama,
    /// A provider this library does not know.
    Unknown,
}

/// The route for a provider and model.
pub open spec fn spec_route(provider: Seq<char>, model: Seq<char>) -> EmbedRoute {
    if provider == "gemini"@ {
        if spec_is_gemini_v2(model) {
            EmbedRoute::GeminiV2
        } else {
            EmbedRoute::GeminiV1
        }
    } else if provider == "openai"@ {
        EmbedRoute::OpenAi
    } else if provider == "ollama"@ {
        EmbedRoute::Ollama
    } else {
        EmbedRoute::Unknown
    }
}

/// The Ollama endpoint used when none is configured.
pub open spec fn default_ollama_url() -> Seq<char> {
    "http://localhost:11434"@
}

impl Embedder {
    /// Creates an embedder.  `api_key` and `base_url` are already resolved
    /// from the provider configuration.
    pub fn new(config: &EmbeddingConfig, api_key: Option<String>, base_url: Option<String>) -> (r: Self)
        ensures
            r.config.provider@ == config.provider@,
            r.config.model@ == config.model@,
            opt_str(r.config.api_key) == opt_str(config.api_key),
            opt_str(r.config.base_url) == opt_str(config.base_url),
            r.config.dimensions == config.dimensions,
            r.api_key == api_key,
            r.base_url == base_url,
    {
        Embedder { config: copy_embedding_config(config), api_key, base_url }
    }

    /// The dimensionality of the embeddings this provider produces.
    pub fn dimensions(&self) -> (r: usize)
        ensures
            r == self.config.dimensions,
    {
        self.config.dimensions
    }

    /// The API key, when one is set and not empty; otherwise the error that
    /// names the provider.
    pub fn require_api_key(&self) -> (r: Result<String, MissingApiKey>)
        ensures
            match self.api_key {
                Some(k) if k@.len() > 0 => r matches Ok(v) && v@ == k@,
                _ => r matches Err(e) && e.provider@ == self.config.provider@,
            },
    {
        match &self.api_key {
            Some(k) => {
                if k.as_str().is_empty() {
                    Err(MissingApiKey { provider: self.config.provider.clone() })
                } else {
                    Ok(k.clone())
                }
            },
            None => Err(MissingApiKey { provider: self.config.provider.clone() }),
        }
    }

    /// How this embedder reaches its provider.
    pub fn route(&self) -> (r: EmbedRoute)
        ensures
            r == spec_route(self.config.provider@, self.config.model@),
    {
        let pc = to_chars(self.config.provider.as_str());
        if chars_eq_str(&pc, "gemini") {
            if is_gemini_v2_embedding(self.config.model.as_str()) {
                EmbedRoute::GeminiV2
            } else {
                EmbedRoute::GeminiV1
            }
        } else if chars_eq_str(&pc, "openai") {
            EmbedRoute::OpenAi
        } else if chars_eq_str(&pc, "ollama") {
            EmbedRoute::Ollama
        } else {
            EmbedRoute::Unknown
        }
    }

    /// The Ollama endpoint: `<base_url>/api/embed`, the base URL defaulting
    /// to `http://localhost:11434`.
    pub fn ollama_url(&self) -> (r: String)
        ensures
            r@ == match self.base_url {
                Some(b) => b@,
                None => default_ollama_url(),
            } + "/api/embed"@,
    {
        let mut out: Vec<char> = Vec::new();
        match &self.base_url {
            Some(b) => push_str(&mut out, b.as_str()),
            None => push_str(&mut out, "http://localhost:11434"),
        }
        push_str(&mut out, "/api/embed");
        from_chars(&out)
    }

    /// The Gemini endpoint for this embedder's model and the given key.
    pub fn gemini_url(&self, api_key: &str) -> (r: String)
        ensures
            r@ == "https://generativelanguage.googleapis.com/v1beta/models/"@ + self.config.model@
                + ":embedContent?key="@ + api_key@,
    {
        let mut out: Vec<char> = Vec::new();
        push_str(&mut out, "https://generativelanguage.googleapis.com/v1beta/models/");
        push_str(&mut out, self.config.model.as_str());
        push_str(&mut out, ":embedContent?key=");
        push_str(&mut out, api_key);
        from_chars(&out)
    }

    /// The texts sent for a batch on the Gemini embedding-2 route: each text
    /// with the task prefix (and, for documents, its title).
    pub fn gemini_v2_inputs(&self, docs: &[(&str, Option<&str>)], task_type: TaskType) -> (r: Vec<String>)
        ensures
            r@.len() == docs@.len(),
            forall|i: int| 0 <= i < docs@.len() ==> #[trigger] r@[i]@ == spec_format_v2(
                docs@[i].0@,
                task_type,
                match docs@[i].1 {
                    Some(t) => Some(t@),
                    None => None,
                },
            ),
    {
        let mut out: Vec<String> = Vec::new();
        let mut k: usize = 0;
        while k < docs.len()
            invariant
                k <= docs.len(),
                out@.len() == k,
                forall|i: int| 0 <= i < k ==> #[trigger] out@[i]@ == spec_format_v2(
                    docs@[i].0@,
                    task_type,
                    match docs@[i].1 {
                        Some(t) => Some(t@),
                        None => None,
                    },
                ),
            decreases docs.len() - k,
        {
            let (text, title) = docs[k];
            out.push(format_gemini_v2_text(text, task_type, title));
            k = k + 1;
        }
        out
    }
}

} // verus!

//! Entity extraction: the prompt an extractor sends, the cleanup of the
//! model's reply before it is parsed, and the decisions an extractor makes
//! before it calls its provider.
use vstd::prelude::*;

use crate::config::{clone_opt, opt_str, ExtractionConfig};
use crate::graph::{Entity, Relationship};
use crate::text::{
    string_of, string_views, chars_eq_str, from_chars, push_str, starts_with, starts_with_chars, sub_chars, to_chars, trim,
    trim_chars,
};

verus! {

/// Result of entity extraction from a single document.
#[derive(Debug)]
pub struct ExtractionResult {
    pub entities: Vec<Entity>,
    pub relationships: Vec<Relationship>,
}

impl ExtractionResult {
    /// The result with no entity and no relationship.
    pub fn empty() -> (r: Self)
        ensures
            r.entities@.len() == 0,
            r.relationships@.len() == 0,
    {
        ExtractionResult { entities: Vec::new(), relationships: Vec::new() }
    }
}

/// The prompt text before the document's path.
pub open spec fn prompt_head() -> Seq<char> {
    "Extract entities and relationships from this document.\n\nEntity types: person, project, service, tool, config, decision, concept\nRelationship types: depends_on, decided_by, deployed_to, relates_to, replaces, configures, uses, created_by\n\nReturn valid JSON only, no markdown fences:\n{\"entities\": [{\"name\": \"...\", \"type\": \"...\", \"description\": \"...\"}], \"relationships\": [{\"source\": \"...\", \"target\": \"...\", \"relation\": \"...\", \"description\": \"...\"}]}\n\nDocument ("@
}

/// The extraction prompt for a document.
pub open spec fn spec_build_prompt(content: Seq<char>, file_path: Seq<char>) -> Seq<char> {
    prompt_head() + file_path + "):\n---\n"@ + content + "\n---"@
}

/// The prompt asking a model for the entities and relationships of a
/// document, with the JSON shape it must answer in.
pub fn build_prompt(content: &str, file_path: &str) -> (r: String)
    ensures
        r@ == spec_build_prompt(content@, file_path@),
{
    let mut v: Vec<char> = Vec::new();
    push_str(&mut v, "Extract entities and relationships from this document.\n\nEntity types: person, project, service, tool, config, decision, concept\nRelationship types: depends_on, decided_by, deployed_to, relates_to, replaces, configures, uses, created_by\n\nReturn valid JSON only, no markdown fences:\n{\"entities\": [{\"name\": \"...\", \"type\": \"...\", \"description\": \"...\"}], \"relationships\": [{\"source\": \"...\", \"target\": \"...\", \"relation\": \"...\", \"description\": \"...\"}]}\n\nDocument (");
    push_str(&mut v, file_path);
    push_str(&mut v, "):\n---\n");
    push_str(&mut v, content);
    push_str(&mut v, "\n---");
    from_chars(&v)
}

/// `s` without any number of leading copies of `p`
/// (`trim_start_matches(p)`; `p` not empty).
pub open spec fn strip_prefix_all(s: Seq<char>, p: Seq<char>) -> Seq<char>
    decreases s.len(),
{
    if p.len() > 0 && starts_with(s, p) {
        strip_prefix_all(s.skip(p.len() as int), p)
    } else {
        s
    }
}

/// `s` without any number of trailing copies of `p`
/// (`trim_end_matches(p)`; `p` not empty).
pub open spec fn strip_suffix_all(s: Seq<char>, p: Seq<char>) -> Seq<char>
    decreases s.len(),
{
    if p.len() > 0 && p.len() <= s.len() && s.subrange(s.len() - p.len(), s.len() as int) == p {
        strip_suffix_all(s.take(s.len() - p.len()), p)
    } else {
        s
    }
}

/// A model's reply made ready for JSON parsing: trimmed, without leading
/// ```` ```json ```` and ```` ``` ```` fences and trailing ```` ``` ````
/// fences, trimmed again.
pub open spec fn spec_clean_reply(text: Seq<char>) -> Seq<char> {
    trim(strip_suffix_all(strip_prefix_all(strip_prefix_all(trim(text), "```json"@), "```"@), "```"@))
}

fn strip_prefix_all_chars(s: &Vec<char>, p: &Vec<char>) -> (r: Vec<char>)
    ensures
        r@ == strip_prefix_all(s@, p@),
{
    if p.len() == 0 {
        return sub_chars(s, 0, s.len());
    }
    let mut i: usize = 0;
    assert(s@.skip(0) == s@);
    while s.len() - i >= p.len() && crate::text::starts_with_vec(&sub_chars(s, i, s.len()), p)
        invariant
            i <= s.len(),
            p.len() > 0,
            strip_prefix_all(s@, p@) == strip_prefix_all(s@.skip(i as int), p@),
        decreases s.len() - i,
    {
        assert(s@.skip(i as int).skip(p.len() as int) == s@.skip(i + p.len()));
        i = i + p.len();
    }
    assert(s@.skip(i as int) == s@.subrange(i as int, s.len() as int));
    let r = sub_chars(s, i, s.len());
    proof {
        if s.len() - i >= p.len() {
        } else {
            assert(!starts_with(s@.skip(i as int), p@));
        }
    }
    r
}

fn strip_suffix_all_chars(s: &Vec<char>, p: &Vec<char>) -> (r: Vec<char>)
    ensures
        r@ == strip_suffix_all(s@, p@),
{
    if p.len() == 0 {
        return sub_chars(s, 0, s.len());
    }
    let mut n = s.len();
    assert(s@.take(n as int) == s@);
    loop
        invariant
            n <= s.len(),
            p.len() > 0,
            strip_suffix_all(s@, p@) == strip_suffix_all(s@.take(n as int), p@),
        ensures
            n <= s.len(),
            strip_suffix_all(s@, p@) == s@.take(n as int),
        decreases n,
    {
        if n < p.len() {
            break;
        }
        let tail = sub_chars(s, n - p.len(), n);
        if !crate::text::chars_eq(&tail, p) {
            assert(s@.take(n as int).subrange(n - p.len(), n as int) == tail@);
            break;
        }
        assert(s@.take(n as int).subrange(n - p.len(), n as int) == tail@);
        assert(s@.take(n as int).take(n - p.len()) == s@.take(n - p.len()));
        n = n - p.len();
    }
    assert(s@.take(n as int) == s@.subrange(0, n as int));
    sub_chars(s, 0, n)
}

/// Cleans a model's reply before it is parsed as JSON: trims it, removes
/// leading ```` ```json ```` / ```` ``` ```` fences and trailing
/// ```` ``` ```` fences, and trims again.
pub fn clean_reply(text: &str) -> (r: String)
    ensures
        r@ == spec_clean_reply(text@),
{
    let tc = to_chars(text);
    let t = trim_chars(&tc);
    let json_fence = to_chars("```json");
    let fence = to_chars("```");
    let a = strip_prefix_all_chars(&t, &json_fence);
    let b = strip_prefix_all_chars(&a, &fence);
    let c = strip_suffix_all_chars(&b, &fence);
    let d = trim_chars(&c);
    from_chars(&d)
}

// ─── Search queries from a model's reply ─────────────────────────────────────

/// What `serde_json::from_str::<Vec<String>>` gives for `reply`: the
/// strings of a JSON array of strings, or nothing when `reply` is not one.
pub uninterp spec fn spec_json_string_array(reply: Seq<char>) -> Option<Seq<Seq<char>>>;

/// What parsing `reply` as a JSON value gives when it is an object whose
/// first member (in the order `serde_json::Map` iterates) is an array: each
/// item's text when the item is a string, none for any other item; nothing
/// when `reply` is not such an object.
pub uninterp spec fn spec_json_first_member_items(reply: Seq<char>) -> Option<Seq<Option<Seq<char>>>>;

/// The view of an optional list of strings.
pub open spec fn opt_strings(o: Option<Vec<String>>) -> Option<Seq<Seq<char>>> {
    match o {
        Some(v) => Some(string_views(v@)),
        None => None,
    }
}

/// The view of an optional list of optional strings.
pub open spec fn opt_items(o: Option<Vec<Option<String>>>) -> Option<Seq<Option<Seq<char>>>> {
    match o {
        Some(v) => Some(Seq::new(v@.len(), |i: int| match v@[i] {
            Some(s) => Some(s@),
            None => None,
        })),
        None => None,
    }
}

/// `serde_json::from_str::<Vec<String>>(reply).ok()`.
#[verifier::external_body]
fn json_string_array(reply: &str) -> (r: Option<Vec<String>>)
    ensures
        opt_strings(r) == spec_json_string_array(reply@),
{
    serde_json::from_str::<Vec<String>>(reply).ok()
}

/// `serde_json::from_str::<Value>(reply)`, then the object's first member as
/// an array, each item as a string where it is one.
#[verifier::external_body]
fn json_first_member_items(reply: &str) -> (r: Option<Vec<Option<String>>>)
    ensures
        opt_items(r) == spec_json_first_member_items(reply@),
{
    let v = serde_json::from_str::<serde_json::Value>(reply).ok()?;
    let arr = v.as_object().and_then(|o| o.values().next()).and_then(|m| m.as_array())?;
    Some(arr.iter().map(|item| item.as_str().map(String::from)).collect())
}

/// The texts of the items that are strings, in order.
pub open spec fn present_strings(items: Seq<Option<Seq<char>>>) -> Seq<Seq<char>>
    decreases items.len(),
{
    if items.len() == 0 {
        Seq::empty()
    } else {
        let prev = present_strings(items.drop_last());
        match items.last() {
            Some(s) => prev.push(s),
            None => prev,
        }
    }
}

/// The most queries a smart search runs.
pub const MAX_QUERIES: usize = 5;

/// The queries of a model's reply: the reply's strings when it is a JSON
/// array of strings; else the strings of the array that is an object's first
/// member; else the raw text alone; at most the first five of them.
pub open spec fn spec_queries_from_reply(reply: Seq<char>, raw_text: Seq<char>) -> Seq<Seq<char>> {
    let qs = match spec_json_string_array(reply) {
        Some(a) => a,
        None => match spec_json_first_member_items(reply) {
            Some(items) => present_strings(items),
            None => seq![raw_text],
        },
    };
    if qs.len() <= MAX_QUERIES {
        qs
    } else {
        qs.take(MAX_QUERIES as int)
    }
}

/// Reads the search queries out of a model's reply to the query prompt.
pub fn queries_from_reply(reply: &str, raw_text: &str) -> (r: Vec<String>)
    ensures
        string_views(r@) == spec_queries_from_reply(reply@, raw_text@),
{
    let qs: Vec<String> = match json_string_array(reply) {
        Some(a) => a,
        None => match json_first_member_items(reply) {
            Some(items) => {
                let ghost iv = opt_items(Some(items)).unwrap();
                let mut out: Vec<String> = Vec::new();
                let mut i: usize = 0;
                while i < items.len()
                    invariant
                        i <= items.len(),
                        iv == opt_items(Some(items)).unwrap(),
                        string_views(out@) == present_strings(iv.take(i as int)),
                    decreases items.len() - i,
                {
                    assert(iv.take(i + 1).drop_last() =~= iv.take(i as int));
                    let ghost before = string_views(out@);
                    match &items[i] {
                        Some(s) => {
                            out.push(s.clone());
                            assert(string_views(out@) =~= before.push(s@));
                        },
                        None => {},
                    }
                    i = i + 1;
                }
                assert(iv.take(items.len() as int) =~= iv);
                out
            },
            None => {
                let mut v: Vec<String> = Vec::new();
                v.push(string_of(raw_text));
                assert(string_views(v@) =~= seq![raw_text@]);
                v
            },
        },
    };
    let ghost all = string_views(qs@);
    if qs.len() <= MAX_QUERIES {
        qs
    } else {
        let mut out: Vec<String> = Vec::new();
        let mut i: usize = 0;
        while i < MAX_QUERIES
            invariant
                i <= MAX_QUERIES < qs.len(),
                all == string_views(qs@),
                string_views(out@) == all.take(i as int),
            decreases MAX_QUERIES - i,
        {
            let ghost before = string_views(out@);
            out.push(qs[i].clone());
            assert(string_views(out@) =~= before.push(all[i as int]));
            assert(all.take(i + 1) =~= all.take(i as int).push(all[i as int]));
            i = i + 1;
        }
        out
    }
}

// ─── The extractor ───────────────────────────────────────────────────────────

/// The extraction provider a configuration selects, and what it was given.
pub struct Extractor {
    pub config: ExtractionConfig,
    /// Resolved API key (already env-expanded).
    pub api_key: Option<String>,
    /// Resolved base URL (used by Ollama).
    pub base_url: Option<String>,
}

/// The error of an extractor that needs a key and has none.
#[derive(Debug)]
pub struct MissingExtractionKey {
    pub provider: String,
}

/// The message of a missing extraction key.
pub open spec fn missing_extraction_key_message(provider: Seq<char>) -> Seq<char> {
    "No api_key configured for extraction provider '"@ + provider + "'. Set it under [providers."@
        + provider + "] in brainjar.toml."@
}

impl MissingExtractionKey {
    /// The error's message.
    pub fn message(&self) -> (r: String)
        ensures
            r@ == missing_extraction_key_message(self.provider@),
    {
        let mut out: Vec<char> = Vec::new();
        push_str(&mut out, "No api_key configured for extraction provider '");
        push_str(&mut out, self.provider.as_str());
        push_str(&mut out, "'. Set it under [providers.");
        push_str(&mut out, self.provider.as_str());
        push_str(&mut out, "] in brainjar.toml.");
        from_chars(&out)
    }
}

/// The provider an extractor calls.
#[derive(Debug, Clone, Copy, PartialEq, Eq)]
pub enum ExtractRoute {
    Gemini,
    OpenAi,
    Ollama,
    Unknown,
}

/// The route for a provider name.
pub open spec fn spec_extract_route(provider: Seq<char>) -> ExtractRoute {
    if provider == "gemini"@ {
        ExtractRoute::Gemini
    } else if provider == "openai"@ {
        ExtractRoute::OpenAi
    } else if provider == "ollama"@ {
        ExtractRoute::Ollama
    } else {
        ExtractRoute::Unknown
    }
}

impl Extractor {
    /// Creates an extractor.  `api_key` and `base_url` are already resolved
    /// from the provider configuration.
    pub fn new(config: &ExtractionConfig, api_key: Option<String>, base_url: Option<String>) -> (r: Self)
        ensures
            r.config.provider@ == config.provider@,
            r.config.model@ == config.model@,
            opt_str(r.config.api_key) == opt_str(config.api_key),
            opt_str(r.config.base_url) == opt_str(config.base_url),
            r.config.enabled == config.enabled,
            r.api_key == api_key,
            r.base_url == base_url,
    {
        let copy = ExtractionConfig {
            provider: config.provider.clone(),
            model: config.model.clone(),
            api_key: clone_opt(&config.api_key),
            base_url: clone_opt(&config.base_url),
            enabled: config.enabled,
        };
        Extractor { config: copy, api_key, base_url }
    }

    /// The API key, when one is set and not empty; otherwise the error that
    /// names the provider.
    pub fn require_api_key(&self) -> (r: Result<String, MissingExtractionKey>)
        ensures
            match self.api_key {
                Some(k) if k@.len() > 0 => r matches Ok(v) && v@ == k@,
                _ => r matches Err(e) && e.provider@ == self.config.provider@,
            },
    {
        match &self.api_key {
            Some(k) => {
                if k.as_str().is_empty() {
                    Err(MissingExtractionKey { provider: self.config.provider.clone() })
                } else {
                    Ok(k.clone())
                }
            },
            None => Err(MissingExtractionKey { provider: self.config.provider.clone() }),
        }
    }

    /// The provider this extractor calls.
    pub fn route(&self) -> (r: ExtractRoute)
        ensures
            r == spec_extract_route(self.config.provider@),
    {
        let pc = to_chars(self.config.provider.as_str());
        if chars_eq_str(&pc, "gemini") {
            ExtractRoute::Gemini
        } else if chars_eq_str(&pc, "openai") {
            ExtractRoute::OpenAi
        } else if chars_eq_str(&pc, "ollama") {
            ExtractRoute::Ollama
        } else {
            ExtractRoute::Unknown
        }
    }

    /// The Gemini endpoint for this extractor's model and the given key.
    pub fn gemini_url(&self, api_key: &str) -> (r: String)
        ensures
            r@ == "https://generativelanguage.googleapis.com/v1beta/models/"@ + self.config.model@
                + ":generateContent?key="@ + api_key@,
    {
        let mut out: Vec<char> = Vec::new();
        push_str(&mut out, "https://generativelanguage.googleapis.com/v1beta/models/");
        push_str(&mut out, self.config.model.as_str());
        push_str(&mut out, ":generateContent?key=");
        push_str(&mut out, api_key);
        from_chars(&out)
    }

    /// The Ollama endpoint: `<base_url>/api/generate`, the base URL
    /// defaulting to `http://localhost:11434`.
    pub fn ollama_url(&self) -> (r: String)
        ensures
            r@ == match self.base_url {
                Some(b) => b@,
                None => "http://localhost:11434"@,
            } + "/api/generate"@,
    {
        let mut out: Vec<char> = Vec::new();
        match &self.base_url {
            Some(b) => push_str(&mut out, b.as_str()),
            None => push_str(&mut out, "http://localhost:11434"),
        }
        push_str(&mut out, "/api/generate");
        from_chars(&out)
    }
}

} // verus!

//! The setup wizard's logic: where a configuration keeps its databases, how
//! credentials and paths are written into `brainjar.toml`, the provider
//! defaults it offers, and the text of the generated file.  The prompting
//! itself happens outside the library.
use vstd::prelude::*;

use crate::config::{clone_opt, opt_str, EmbeddingConfig, ExtractionConfig, ProviderConfig};
use crate::paths::{path_file_name, path_join, path_parent, is_plain_name, spec_file_name, spec_join, spec_parent};
use crate::text::{
    append_chars, chars_eq_str, from_chars, push_str, string_of, sub_chars, to_chars, trim,
    trim_chars, contains_seq, contains_vec, trim_end, trailing_ws, trailing_ws_count,
    lemma_trailing_ws, starts_with, lex_lt, chars_lt, lemma_lex_irreflexive, lemma_lex_total,
    lemma_lex_transitive, string_views, chars_eq, starts_with_chars,
};

verus! {

// ─── Wizard data ─────────────────────────────────────────────────────────────

/// A knowledge base as the wizard gathers it.
#[derive(Debug, Clone)]
pub struct KbConfig {
    pub name: String,
    pub watch_paths: Vec<String>,
    pub description: Option<String>,
    pub auto_sync: bool,
}

/// A provider as the wizard gathers it (empty strings for unset values).
#[derive(Debug, Clone)]
pub struct ProviderEntry {
    /// "gemini" | "openai" | "ollama" | another name
    pub name: String,
    pub api_key: String,
    pub base_url: String,
}

// ─── Data directory ──────────────────────────────────────────────────────────

/// The directory holding a configuration file (`.` when it has none).
pub open spec fn config_parent(config_path: Seq<char>) -> Seq<char> {
    match spec_parent(config_path) {
        Some(p) => p,
        None => "."@,
    }
}

/// The data directory of a configuration: the directory of the file when
/// that directory is itself named `.brainjar`, else a `.brainjar`
/// directory beside the file.
pub open spec fn spec_resolve_data_dir(config_path: Seq<char>) -> Seq<char> {
    let parent = config_parent(config_path);
    if spec_file_name(parent) == Some(".brainjar"@) {
        parent
    } else {
        spec_join(parent, ".brainjar"@)
    }
}

/// Computes the data directory for a configuration file path: a config
/// already inside a `.brainjar` directory uses that directory (no double
/// nesting); any other gets a `.brainjar` subdirectory next to it.  Either
/// way the data directory's own name is `.brainjar`.
pub fn resolve_data_dir(config_path: &str) -> (r: String)
    ensures
        r@ == spec_resolve_data_dir(config_path@),
        spec_file_name(r@) == Some(".brainjar"@),
{
    let parent = match path_parent(config_path) {
        Some(p) => p,
        None => string_of("."),
    };
    let is_brainjar = match path_file_name(parent.as_str()) {
        Some(n) => {
            let nc = to_chars(n.as_str());
            chars_eq_str(&nc, ".brainjar")
        },
        None => false,
    };
    if is_brainjar {
        parent
    } else {
        proof {
            reveal_strlit(".brainjar");
            assert(".brainjar"@.len() == 9);
            assert(is_plain_name(".brainjar"@));
        }
        path_join(parent.as_str(), ".brainjar")
    }
}

/// What `Path::strip_prefix` gives for the path text `p` and the base text
/// `base` (the rest of `p` after the components of `base`).
pub uninterp spec fn spec_strip_prefix(p: Seq<char>, base: Seq<char>) -> Option<Seq<char>>;

/// `Path::new(p).strip_prefix(base)`, as text.
#[verifier::external_body]
pub(crate) fn path_strip_prefix(p: &str, base: &str) -> (r: Option<String>)
    ensures
        opt_str(r) == spec_strip_prefix(p@, base@),
{
    std::path::Path::new(p).strip_prefix(base).ok().map(|r| r.to_string_lossy().into_owned())
}

/// A path written with `~` for the home directory when it lies under it.
pub open spec fn spec_tilde_form(path: Seq<char>, home: Option<Seq<char>>) -> Seq<char> {
    match home {
        Some(h) => match spec_strip_prefix(path, h) {
            Some(rel) => if rel.len() == 0 {
                "~"@
            } else {
                "~/"@ + rel
            },
            None => path,
        },
        None => path,
    }
}

/// Writes `path` with `~` standing for `home` when the path lies under it.
pub fn tilde_form(path: &str, home: Option<&str>) -> (r: String)
    ensures
        r@ == spec_tilde_form(path@, match home {
            Some(h) => Some(h@),
            None => None,
        }),
{
    match home {
        Some(h) => match path_strip_prefix(path, h) {
            Some(rel) => {
                if rel.as_str().is_empty() {
                    string_of("~")
                } else {
                    let mut v: Vec<char> = Vec::new();
                    push_str(&mut v, "~/");
                    push_str(&mut v, rel.as_str());
                    from_chars(&v)
                }
            },
            None => string_of(path),
        },
        None => string_of(path),
    }
}

/// The data directory of a configuration, written with `~` for the home
/// directory (`home` is the user's home directory, when known).
pub fn resolve_data_dir_string(config_path: &str, home: Option<&str>) -> (r: String)
    ensures
        r@ == spec_tilde_form(spec_resolve_data_dir(config_path@), match home {
            Some(h) => Some(h@),
            None => None,
        }),
{
    let d = resolve_data_dir(config_path);
    tilde_form(d.as_str(), home)
}

// ─── Credentials ─────────────────────────────────────────────────────────────

/// A character of an environment variable name: `A`–`Z`, `0`–`9` or `_`.
pub open spec fn is_env_name_char(c: char) -> bool {
    ('A' <= c <= 'Z') || ('0' <= c <= '9') || c == '_'
}

/// A non-empty string of upper-case letters, digits and underscores.
pub open spec fn spec_is_env_var_name(s: Seq<char>) -> bool {
    s.len() > 0 && forall|i: int| 0 <= i < s.len() ==> #[trigger] is_env_name_char(s[i])
}

/// Whether a value names an environment variable (ALL_CAPS_WITH_UNDERSCORES)
/// rather than being a raw key.
pub fn is_env_var_name(s: &str) -> (r: bool)
    ensures
        r == spec_is_env_var_name(s@),
{
    let sc = to_chars(s);
    if sc.len() == 0 {
        return false;
    }
    let mut i: usize = 0;
    while i < sc.len()
        invariant
            i <= sc.len(),
            sc@ == s@,
            forall|k: int| 0 <= k < i ==> #[trigger] is_env_name_char(sc@[k]),
        decreases sc.len() - i,
    {
        let c = sc[i];
        if !(('A' <= c && c <= 'Z') || ('0' <= c && c <= '9') || c == '_') {
            assert(!is_env_name_char(sc@[i as int]));
            return false;
        }
        i = i + 1;
    }
    true
}

/// The TOML value written for an API key.
pub open spec fn spec_api_key_value(key: Seq<char>) -> Seq<char> {
    if key.len() == 0 {
        "\"\""@
    } else if spec_is_env_var_name(key) {
        "\"${"@ + key + "}\""@
    } else {
        "\""@ + key + "\""@
    }
}

/// The TOML value for an API key: `""` when empty, a `"${NAME}"` reference
/// when the key is an environment variable name, else the key quoted.
pub fn format_api_key_value(key: &str) -> (r: String)
    ensures
        r@ == spec_api_key_value(key@),
{
    let mut v: Vec<char> = Vec::new();
    if key.is_empty() {
        push_str(&mut v, "\"\"");
    } else if is_env_var_name(key) {
        push_str(&mut v, "\"${");
        push_str(&mut v, key);
        push_str(&mut v, "}\"");
    } else {
        push_str(&mut v, "\"");
        push_str(&mut v, key);
        push_str(&mut v, "\"");
    }
    from_chars(&v)
}

// ─── Numbers ─────────────────────────────────────────────────────────────────

/// The decimal digit character of `d` (0 ≤ d < 10).
pub open spec fn digit_char(d: nat) -> char {
    (('0' as nat) + d) as char
}

/// The value of a decimal digit character.
pub open spec fn digit_value(c: char) -> nat {
    ((c as nat) - ('0' as nat)) as nat
}

/// An ASCII decimal digit.
pub open spec fn is_digit(c: char) -> bool {
    '0' <= c <= '9'
}

/// The decimal representation of `n`, without leading zeros.
pub open spec fn decimal(n: nat) -> Seq<char>
    decreases n,
{
    if n < 10 {
        seq![digit_char(n)]
    } else {
        decimal(n / 10).push(digit_char(n % 10))
    }
}

/// The value of a string of decimal digits.
pub open spec fn decimal_value(s: Seq<char>) -> nat
    decreases s.len(),
{
    if s.len() == 0 {
        0
    } else {
        decimal_value(s.drop_last()) * 10 + digit_value(s.last())
    }
}

fn digit_of(d: usize) -> (r: char)
    requires
        d < 10,
    ensures
        r == digit_char(d as nat),
        is_digit(r),
        digit_value(r) == d,
{
    let b: u8 = 48u8 + (d as u8);
    b as char
}

fn decimal_chars(n: usize) -> (r: Vec<char>)
    ensures
        r@ == decimal(n as nat),
    decreases n,
{
    if n < 10 {
        let mut v: Vec<char> = Vec::new();
        v.push(digit_of(n));
        v
    } else {
        let mut v = decimal_chars(n / 10);
        v.push(digit_of(n % 10));
        v
    }
}

/// The decimal digits of `n`.
pub(crate) fn decimal_chars_u64(n: u64) -> (r: Vec<char>)
    ensures
        r@ == decimal(n as nat),
    decreases n,
{
    if n < 10 {
        let mut v: Vec<char> = Vec::new();
        v.push(digit_of(n as usize));
        v
    } else {
        let mut v = decimal_chars_u64(n / 10);
        v.push(digit_of((n % 10) as usize));
        v
    }
}

/// `n` written in decimal (`usize::to_string`).
pub fn decimal_string(n: usize) -> (r: String)
    ensures
        r@ == decimal(n as nat),
{
    let v = decimal_chars(n);
    from_chars(&v)
}

/// The digits after an optional leading `+`.
pub open spec fn unsigned_body(s: Seq<char>) -> Seq<char> {
    if s.len() > 0 && s[0] == '+' {
        s.drop_first()
    } else {
        s
    }
}

/// What `str::parse::<usize>` gives: an optional `+`, then one or more
/// decimal digits whose value fits in `usize`.
pub open spec fn spec_parse_usize(s: Seq<char>) -> Option<usize> {
    let body = unsigned_body(s);
    if body.len() > 0 && (forall|i: int| 0 <= i < body.len() ==> #[trigger] is_digit(body[i]))
        && decimal_value(body) <= usize::MAX {
        Some(decimal_value(body) as usize)
    } else {
        None
    }
}

proof fn lemma_decimal_value_grows(s: Seq<char>, k: int)
    requires
        0 <= k <= s.len(),
    ensures
        decimal_value(s) >= decimal_value(s.take(k)),
    decreases s.len() - k,
{
    if k < s.len() {
        lemma_decimal_value_grows(s, k + 1);
        assert(s.take(k + 1).drop_last() == s.take(k));
    } else {
        assert(s.take(k) == s);
    }
}

/// Parses a decimal `usize` (`str::parse::<usize>`): an optional `+`, then
/// digits only; `None` when empty, on any other character, or when the
/// value does not fit.
pub fn parse_usize(s: &str) -> (r: Option<usize>)
    ensures
        r == spec_parse_usize(s@),
{
    let sc = to_chars(s);
    let start: usize = if sc.len() > 0 && sc[0] == '+' { 1 } else { 0 };
    let ghost body = unsigned_body(s@);
    assert(body == sc@.subrange(start as int, sc@.len() as int));
    if start >= sc.len() {
        return None;
    }
    let mut value: usize = 0;
    let mut i = start;
    while i < sc.len()
        invariant
            start <= i <= sc.len(),
            sc@ == s@,
            body == sc@.subrange(start as int, sc@.len() as int),
            body == unsigned_body(s@),
            forall|k: int| 0 <= k < i - start ==> #[trigger] is_digit(body[k]),
            value == decimal_value(body.take(i - start)),
        decreases sc.len() - i,
    {
        let c = sc[i];
        let ghost j = i - start;
        assert(body.take(j + 1).drop_last() == body.take(j));
        assert(body[j] == c);
        if !('0' <= c && c <= '9') {
            assert(!is_digit(body[j]));
            return None;
        }
        let d = (c as u32 - 48u32) as usize;
        assert(d == digit_value(c));
        assert(decimal_value(body.take(j + 1)) == value * 10 + d);
        match value.checked_mul(10) {
            Some(v10) => match v10.checked_add(d) {
                Some(v) => {
                    value = v;
                },
                None => {
                    proof {
                        lemma_decimal_value_grows(body, j + 1);
                    }
                    return None;
                },
            },
            None => {
                proof {
                    lemma_decimal_value_grows(body, j + 1);
                }
                return None;
            },
        }
        i = i + 1;
    }
    assert(body.take(body.len() as int) == body);
    Some(value)
}

proof fn lemma_decimal_digits(n: nat)
    ensures
        decimal(n).len() > 0,
        forall|i: int| 0 <= i < decimal(n).len() ==> #[trigger] is_digit(decimal(n)[i]),
        decimal_value(decimal(n)) == n,
        decimal(n)[0] != '+',
    decreases n,
{
    if n >= 10 {
        lemma_decimal_digits(n / 10);
        let d = decimal(n / 10);
        assert(decimal(n).drop_last() == d);
        assert(decimal(n)[0] == d[0]);
        assert(digit_value(digit_char(n % 10)) == n % 10);
        assert(decimal(n).last() == digit_char(n % 10));
        assert(decimal_value(decimal(n)) == decimal_value(d) * 10 + digit_value(digit_char(n % 10)));
        assert(n == (n / 10) * 10 + n % 10);
        assert(decimal_value(decimal(n)) == n);
    } else {
        assert(digit_value(digit_char(n)) == n);
        assert(decimal(n).drop_last() =~= Seq::<char>::empty());
        assert(decimal_value(Seq::<char>::empty()) == 0);
        assert(decimal(n).last() == digit_char(n));
        assert(decimal_value(decimal(n)) == n);
    }
}

/// Reading back what `decimal_string` writes gives the number again.
pub proof fn law_decimal_round_trip(n: usize)
    ensures
        spec_parse_usize(decimal(n as nat)) == Some(n),
{
    lemma_decimal_digits(n as nat);
}

/// The dimensions typed for an embedding model: the number written (spaces
/// around it allowed), else the model's default.
pub fn parse_dimensions(input: &str, model: &str) -> (r: usize)
    ensures
        r == match spec_parse_usize(trim(input@)) {
            Some(n) => n,
            None => spec_default_dimensions(model@),
        },
{
    let ic = to_chars(input);
    let t = trim_chars(&ic);
    let ts = from_chars(&t);
    match parse_usize(ts.as_str()) {
        Some(n) => n,
        None => default_dimensions(model),
    }
}

// ─── Provider defaults ───────────────────────────────────────────────────────

/// The embedding dimensions a model is configured with by default.
pub open spec fn spec_default_dimensions(model: Seq<char>) -> usize {
    if model == "gemini-embedding-2-preview"@ {
        3072
    } else if model == "gemini-embedding-001"@ {
        768
    } else if model == "text-embedding-3-small"@ {
        1536
    } else if model == "text-embedding-3-large"@ {
        3072
    } else {
        768
    }
}

/// The default dimensions of an embedding model (768 for unknown models).
pub fn default_dimensions(model: &str) -> (r: usize)
    ensures
        r == spec_default_dimensions(model@),
{
    let m = to_chars(model);
    if chars_eq_str(&m, "gemini-embedding-2-preview") {
        3072
    } else if chars_eq_str(&m, "gemini-embedding-001") {
        768
    } else if chars_eq_str(&m, "text-embedding-3-small") {
        1536
    } else if chars_eq_str(&m, "text-embedding-3-large") {
        3072
    } else {
        768
    }
}

/// The dimension choices offered for a model, each with whether it is the
/// recommended one.
pub open spec fn spec_dimension_choices(model: Seq<char>) -> Seq<(usize, bool)> {
    if model == "gemini-embedding-2-preview"@ {
        seq![(3072usize, true), (768usize, false)]
    } else if model == "gemini-embedding-001"@ {
        seq![(768usize, true)]
    } else if model == "text-embedding-3-small"@ {
        seq![(1536usize, true)]
    } else if model == "text-embedding-3-large"@ {
        seq![(3072usize, true), (1024usize, false)]
    } else {
        Seq::empty()
    }
}

/// The dimension choices for a model as (value, recommended); empty for a
/// custom model, whose dimensions are asked for directly.
pub fn dimension_choices(model: &str) -> (r: Vec<(usize, bool)>)
    ensures
        r@ == spec_dimension_choices(model@),
{
    let m = to_chars(model);
    let mut v: Vec<(usize, bool)> = Vec::new();
    if chars_eq_str(&m, "gemini-embedding-2-preview") {
        v.push((3072, true));
        v.push((768, false));
    } else if chars_eq_str(&m, "gemini-embedding-001") {
        v.push((768, true));
    } else if chars_eq_str(&m, "text-embedding-3-small") {
        v.push((1536, true));
    } else if chars_eq_str(&m, "text-embedding-3-large") {
        v.push((3072, true));
        v.push((1024, false));
    }
    assert(v@ =~= spec_dimension_choices(model@));
    v
}

/// The embedding model offered by default for a provider.
pub open spec fn spec_default_embed_model(provider: Seq<char>) -> Seq<char> {
    if provider == "gemini"@ {
        "gemini-embedding-2-preview"@
    } else if provider == "openai"@ {
        "text-embedding-3-small"@
    } else if provider == "ollama"@ {
        "nomic-embed-text"@
    } else {
        "text-embedding-004"@
    }
}

/// The default embedding model of a provider.
pub fn default_embed_model(provider: &str) -> (r: &'static str)
    ensures
        r@ == spec_default_embed_model(provider@),
{
    let p = to_chars(provider);
    if chars_eq_str(&p, "gemini") {
        "gemini-embedding-2-preview"
    } else if chars_eq_str(&p, "openai") {
        "text-embedding-3-small"
    } else if chars_eq_str(&p, "ollama") {
        "nomic-embed-text"
    } else {
        "text-embedding-004"
    }
}

/// The extraction model offered by default for a provider.
pub open spec fn spec_default_extract_model(provider: Seq<char>) -> Seq<char> {
    if provider == "gemini"@ {
        "gemini-3.1-flash-lite-preview"@
    } else if provider == "openai"@ {
        "gpt-4o-mini"@
    } else if provider == "ollama"@ {
        "llama3"@
    } else {
        "gemini-3.1-flash-lite-preview"@
    }
}

/// The default extraction model of a provider.
pub fn default_extract_model(provider: &str) -> (r: &'static str)
    ensures
        r@ == spec_default_extract_model(provider@),
{
    let p = to_chars(provider);
    if chars_eq_str(&p, "gemini") {
        "gemini-3.1-flash-lite-preview"
    } else if chars_eq_str(&p, "openai") {
        "gpt-4o-mini"
    } else if chars_eq_str(&p, "ollama") {
        "llama3"
    } else {
        "gemini-3.1-flash-lite-preview"
    }
}

/// The storage option pre-selected in edit mode: 0 for the recommended
/// location, 1 for `.brainjar`, 2 for a custom path; 0 with no existing
/// setting.
pub fn default_storage_index(existing: Option<&str>, smart: &str) -> (r: usize)
    ensures
        r == match existing {
            Some(e) => if e@ == smart@ {
                0usize
            } else if e@ == ".brainjar"@ {
                1usize
            } else {
                2usize
            },
            None => 0usize,
        },
{
    match existing {
        Some(e) => {
            let ec = to_chars(e);
            let sc = to_chars(smart);
            if crate::text::chars_eq(&ec, &sc) {
                0
            } else if chars_eq_str(&ec, ".brainjar") {
                1
            } else {
                2
            }
        },
        None => 0,
    }
}

/// The model option pre-selected in edit mode among two named models and
/// "custom": 0 or 1 for a named model, 2 for any other, 0 with none.
pub fn default_model_index(existing: Option<&str>, first: &str, second: &str) -> (r: usize)
    ensures
        r == match existing {
            Some(e) => if e@ == first@ {
                0usize
            } else if e@ == second@ {
                1usize
            } else {
                2usize
            },
            None => 0usize,
        },
{
    match existing {
        Some(e) => {
            let ec = to_chars(e);
            let f = to_chars(first);
            let s = to_chars(second);
            if crate::text::chars_eq(&ec, &f) {
                0
            } else if crate::text::chars_eq(&ec, &s) {
                1
            } else {
                2
            }
        },
        None => 0,
    }
}

// ─── brainjar.toml ───────────────────────────────────────────────────────────

/// `s` with every `"` escaped as `\"`.
pub open spec fn escape_quotes(s: Seq<char>) -> Seq<char>
    decreases s.len(),
{
    if s.len() == 0 {
        Seq::empty()
    } else if s.last() == '"' {
        escape_quotes(s.drop_last()) + seq!['\\', '"']
    } else {
        escape_quotes(s.drop_last()).push(s.last())
    }
}

fn push_escaped(out: &mut Vec<char>, s: &str)
    ensures
        final(out)@ == old(out)@ + escape_quotes(s@),
{
    let sc = to_chars(s);
    let mut i: usize = 0;
    while i < sc.len()
        invariant
            i <= sc.len(),
            sc@ == s@,
            out@ == old(out)@ + escape_quotes(sc@.take(i as int)),
        decreases sc.len() - i,
    {
        assert(sc@.take(i + 1).drop_last() == sc@.take(i as int));
        if sc[i] == '"' {
            out.push('\\');
            out.push('"');
        } else {
            out.push(sc[i]);
        }
        assert(out@ =~= old(out)@ + escape_quotes(sc@.take(i + 1)));
        i = i + 1;
    }
    assert(sc@.take(sc.len() as int) == sc@);
}

/// The file's opening comment.
pub open spec fn toml_header() -> Seq<char> {
    "# brainjar.toml — Knowledge base configuration\n# Generated by `brainjar init`\n\n"@
}

/// The lines of one provider entry: its api_key and base_url, each when set.
pub open spec fn provider_lines(name: Seq<char>, key: Seq<char>, url: Seq<char>) -> Seq<char> {
    (if key.len() > 0 {
        name + ".api_key = "@ + spec_api_key_value(key) + "\n"@
    } else {
        Seq::empty()
    }) + (if url.len() > 0 {
        name + ".base_url = \""@ + url + "\"\n"@
    } else {
        Seq::empty()
    })
}

/// The lines of the provider entries, in order.
pub open spec fn all_provider_lines(ps: Seq<ProviderEntry>) -> Seq<char>
    decreases ps.len(),
{
    if ps.len() == 0 {
        Seq::empty()
    } else {
        let p = ps.last();
        all_provider_lines(ps.drop_last()) + provider_lines(p.name@, p.api_key@, p.base_url@)
    }
}

/// The `[providers]` section, or a commented example when there are none.
pub open spec fn providers_section(ps: Seq<ProviderEntry>) -> Seq<char> {
    if ps.len() > 0 {
        "[providers]\n"@ + all_provider_lines(ps) + "\n"@
    } else {
        "# [providers]\n# gemini.api_key = \"${GEMINI_API_KEY}\"\n# openai.api_key = \"${OPENAI_API_KEY}\"\n# ollama.base_url = \"http://localhost:11434\"\n\n"@
    }
}

/// The `[embeddings]` section, when both a provider and a model are given;
/// the dimensions default to the model's.
pub open spec fn embeddings_section(provider: Option<Seq<char>>, model: Option<Seq<char>>, dims: Option<usize>) -> Seq<char> {
    match (provider, model) {
        (Some(p), Some(m)) => {
            let d = match dims {
                Some(d) => d,
                None => spec_default_dimensions(m),
            };
            "[embeddings]\n"@ + "provider   = \""@ + p + "\"\n"@ + "model      = \""@ + m + "\"\n"@
                + "dimensions = "@ + decimal(d as nat) + "\n\n"@
        },
        _ => Seq::empty(),
    }
}

/// The `[extraction]` section, when both a provider and a model are given.
pub open spec fn extraction_section(provider: Option<Seq<char>>, model: Option<Seq<char>>) -> Seq<char> {
    match (provider, model) {
        (Some(p), Some(m)) => "[extraction]\n"@ + "provider = \""@ + p + "\"\n"@ + "model    = \""@ + m
            + "\"\n"@ + "enabled  = true\n\n"@,
        _ => Seq::empty(),
    }
}

/// The quoted, escaped watch paths, separated by `", "`.
pub open spec fn quoted_paths(ps: Seq<String>) -> Seq<char>
    decreases ps.len(),
{
    if ps.len() == 0 {
        Seq::empty()
    } else if ps.len() == 1 {
        "\""@ + escape_quotes(ps[0]@) + "\""@
    } else {
        quoted_paths(ps.drop_last()) + ", "@ + "\""@ + escape_quotes(ps.last()@) + "\""@
    }
}

/// The TOML value of a knowledge base's watch paths.
pub open spec fn watch_paths_value(ps: Seq<String>) -> Seq<char> {
    if ps.len() == 0 {
        "[]  # TODO: add paths to watch"@
    } else {
        "["@ + quoted_paths(ps) + "]"@
    }
}

/// `true` or `false`.
pub open spec fn bool_text(b: bool) -> Seq<char> {
    if b {
        "true"@
    } else {
        "false"@
    }
}

/// The section of one knowledge base.
pub open spec fn kb_section(kb: KbConfig) -> Seq<char> {
    "[knowledge_bases."@ + kb.name@ + "]\n"@ + (match kb.description {
        Some(d) => "description = \""@ + escape_quotes(d@) + "\"\n"@,
        None => Seq::empty(),
    }) + "watch_paths = "@ + watch_paths_value(kb.watch_paths@) + "\nauto_sync   = "@ + bool_text(kb.auto_sync)
        + "\n\n"@
}

/// The sections of the knowledge bases, in order.
pub open spec fn kb_sections(kbs: Seq<KbConfig>) -> Seq<char>
    decreases kbs.len(),
{
    if kbs.len() == 0 {
        Seq::empty()
    } else {
        kb_sections(kbs.drop_last()) + kb_section(kbs.last())
    }
}

/// The view of an optional string slice.
pub open spec fn opt_view_str(o: Option<&str>) -> Option<Seq<char>> {
    match o {
        Some(s) => Some(s@),
        None => None,
    }
}

/// The text of `brainjar.toml` for the wizard's answers.
pub open spec fn spec_render_toml(
    data_dir: Seq<char>,
    providers: Seq<ProviderEntry>,
    embed_provider: Option<Seq<char>>,
    embed_model: Option<Seq<char>>,
    embed_dimensions: Option<usize>,
    extract_provider: Option<Seq<char>>,
    extract_model: Option<Seq<char>>,
    kbs: Seq<KbConfig>,
) -> Seq<char> {
    toml_header() + "data_dir = \""@ + data_dir + "\"\n\n"@ + providers_section(providers)
        + embeddings_section(embed_provider, embed_model, embed_dimensions)
        + extraction_section(extract_provider, extract_model) + kb_sections(kbs)
}

fn push_provider_lines(out: &mut Vec<char>, providers: &[ProviderEntry])
    ensures
        final(out)@ == old(out)@ + all_provider_lines(providers@),
{
    let mut i: usize = 0;
    while i < providers.len()
        invariant
            i <= providers.len(),
            out@ == old(out)@ + all_provider_lines(providers@.take(i as int)),
        decreases providers.len() - i,
    {
        assert(providers@.take(i + 1).drop_last() == providers@.take(i as int));
        let p = &providers[i];
        let ghost before = out@;
        if !p.api_key.as_str().is_empty() {
            push_str(out, p.name.as_str());
            push_str(out, ".api_key = ");
            let v = format_api_key_value(p.api_key.as_str());
            push_str(out, v.as_str());
            push_str(out, "\n");
        }
        let ghost mid = out@;
        if !p.base_url.as_str().is_empty() {
            push_str(out, p.name.as_str());
            push_str(out, ".base_url = \"");
            push_str(out, p.base_url.as_str());
            push_str(out, "\"\n");
        }
        assert(out@ =~= before + provider_lines(p.name@, p.api_key@, p.base_url@));
        i = i + 1;
    }
    assert(providers@.take(providers.len() as int) == providers@);
}

fn push_watch_paths(out: &mut Vec<char>, paths: &Vec<String>)
    ensures
        final(out)@ == old(out)@ + watch_paths_value(paths@),
{
    if paths.len() == 0 {
        push_str(out, "[]  # TODO: add paths to watch");
        return;
    }
    push_str(out, "[");
    let ghost start = out@;
    let mut i: usize = 0;
    while i < paths.len()
        invariant
            i <= paths.len(),
            paths.len() > 0,
            out@ == start + quoted_paths(paths@.take(i as int)),
        decreases paths.len() - i,
    {
        assert(paths@.take(i + 1).drop_last() == paths@.take(i as int));
        let ghost before = out@;
        if i > 0 {
            push_str(out, ", ");
        }
        push_str(out, "\"");
        push_escaped(out, paths[i].as_str());
        push_str(out, "\"");
        proof {
            if i == 0 {
                assert(paths@.take(1).len() == 1);
                assert(paths@.take(1)[0] == paths@[0]);
            }
        }
        assert(out@ =~= start + quoted_paths(paths@.take(i + 1)));
        i = i + 1;
    }
    assert(paths@.take(paths.len() as int) == paths@);
    push_str(out, "]");
}

fn push_kb_section(out: &mut Vec<char>, kb: &KbConfig)
    ensures
        final(out)@ == old(out)@ + kb_section(*kb),
{
    push_str(out, "[knowledge_bases.");
    push_str(out, kb.name.as_str());
    push_str(out, "]\n");
    let ghost a = out@;
    match &kb.description {
        Some(d) => {
            push_str(out, "description = \"");
            push_escaped(out, d.as_str());
            push_str(out, "\"\n");
        },
        None => {},
    }
    let ghost b = out@;
    push_str(out, "watch_paths = ");
    push_watch_paths(out, &kb.watch_paths);
    push_str(out, "\nauto_sync   = ");
    if kb.auto_sync {
        push_str(out, "true");
    } else {
        push_str(out, "false");
    }
    push_str(out, "\n\n");
    assert(out@ =~= old(out)@ + kb_section(*kb));
}

fn push_providers_section(out: &mut Vec<char>, providers: &[ProviderEntry])
    ensures
        final(out)@ == old(out)@ + providers_section(providers@),
{
    if providers.len() > 0 {
        push_str(out, "[providers]\n");
        push_provider_lines(out, providers);
        push_str(out, "\n");
    } else {
        push_str(out, "# [providers]\n# gemini.api_key = \"${GEMINI_API_KEY}\"\n# openai.api_key = \"${OPENAI_API_KEY}\"\n# ollama.base_url = \"http://localhost:11434\"\n\n");
    }
    assert(out@ =~= old(out)@ + providers_section(providers@));
}

fn push_embeddings_section(out: &mut Vec<char>, embed_provider: Option<&str>, embed_model: Option<&str>, embed_dimensions: Option<usize>)
    ensures
        final(out)@ == old(out)@ + embeddings_section(opt_view_str(embed_provider), opt_view_str(embed_model), embed_dimensions),
{
    match (embed_provider, embed_model) {
        (Some(p), Some(m)) => {
            push_str(out, "[embeddings]\n");
            push_str(out, "provider   = \"");
            push_str(out, p);
            push_str(out, "\"\n");
            push_str(out, "model      = \"");
            push_str(out, m);
            push_str(out, "\"\n");
            let dims = match embed_dimensions {
                Some(d) => d,
                None => default_dimensions(m),
            };
            push_str(out, "dimensions = ");
            let dc = decimal_chars(dims);
            append_chars(out, &dc);
            push_str(out, "\n\n");
        },
        _ => {},
    }
    assert(out@ =~= old(out)@ + embeddings_section(opt_view_str(embed_provider), opt_view_str(embed_model), embed_dimensions));
}

fn push_extraction_section(out: &mut Vec<char>, extract_provider: Option<&str>, extract_model: Option<&str>)
    ensures
        final(out)@ == old(out)@ + extraction_section(opt_view_str(extract_provider), opt_view_str(extract_model)),
{
    match (extract_provider, extract_model) {
        (Some(p), Some(m)) => {
            push_str(out, "[extraction]\n");
            push_str(out, "provider = \"");
            push_str(out, p);
            push_str(out, "\"\n");
            push_str(out, "model    = \"");
            push_str(out, m);
            push_str(out, "\"\n");
            push_str(out, "enabled  = true\n\n");
        },
        _ => {},
    }
    assert(out@ =~= old(out)@ + extraction_section(opt_view_str(extract_provider), opt_view_str(extract_model)));
}

fn push_kb_sections(out: &mut Vec<char>, kbs: &[KbConfig])
    ensures
        final(out)@ == old(out)@ + kb_sections(kbs@),
{
    let mut i: usize = 0;
    while i < kbs.len()
        invariant
            i <= kbs.len(),
            out@ == old(out)@ + kb_sections(kbs@.take(i as int)),
        decreases kbs.len() - i,
    {
        assert(kbs@.take(i + 1).drop_last() == kbs@.take(i as int));
        push_kb_section(out, &kbs[i]);
        assert(out@ =~= old(out)@ + kb_sections(kbs@.take(i + 1)));
        i = i + 1;
    }
    assert(kbs@.take(kbs.len() as int) == kbs@);
}

/// The text of `brainjar.toml` for the wizard's answers: the header, the
/// data directory, the providers (or a commented example), the embeddings
/// and extraction sections when both their provider and model are given,
/// then one section per knowledge base.
pub fn render_brainjar_toml(
    data_dir: &str,
    providers: &[ProviderEntry],
    embed_provider: Option<&str>,
    embed_model: Option<&str>,
    embed_dimensions: Option<usize>,
    extract_provider: Option<&str>,
    extract_model: Option<&str>,
    kbs: &[KbConfig],
) -> (r: String)
    ensures
        r@ == spec_render_toml(
            data_dir@,
            providers@,
            opt_view_str(embed_provider),
            opt_view_str(embed_model),
            embed_dimensions,
            opt_view_str(extract_provider),
            opt_view_str(extract_model),
            kbs@,
        ),
{
    let mut out: Vec<char> = Vec::new();
    push_str(&mut out, "# brainjar.toml — Knowledge base configuration\n# Generated by `brainjar init`\n\n");
    push_str(&mut out, "data_dir = \"");
    push_str(&mut out, data_dir);
    push_str(&mut out, "\"\n\n");
    push_providers_section(&mut out, providers);
    push_embeddings_section(&mut out, embed_provider, embed_model, embed_dimensions);
    push_extraction_section(&mut out, extract_provider, extract_model);
    push_kb_sections(&mut out, kbs);
    assert(out@ =~= spec_render_toml(
        data_dir@,
        providers@,
        opt_view_str(embed_provider),
        opt_view_str(embed_model),
        embed_dimensions,
        opt_view_str(extract_provider),
        opt_view_str(extract_model),
        kbs@,
    ));
    from_chars(&out)
}

// ─── .gitignore ──────────────────────────────────────────────────────────────

/// `s` without any leading `./` (`trim_start_matches("./")`).
pub open spec fn strip_dot_slash(s: Seq<char>) -> Seq<char>
    decreases s.len(),
{
    if s.len() >= 2 && s[0] == '.' && s[1] == '/' {
        strip_dot_slash(s.skip(2))
    } else {
        s
    }
}

/// `s` without trailing `/` (`trim_end_matches('/')`).
pub open spec fn strip_trailing_slash(s: Seq<char>) -> Seq<char>
    decreases s.len(),
{
    if s.len() > 0 && s.last() == '/' {
        strip_trailing_slash(s.drop_last())
    } else {
        s
    }
}

/// The `.gitignore` entry for a data directory, and that entry with one
/// trailing `/`.
pub open spec fn ignore_entry(data_dir: Seq<char>) -> Seq<char> {
    strip_dot_slash(data_dir)
}

/// The line written into `.gitignore` for a data directory.
pub open spec fn ignore_line(data_dir: Seq<char>) -> Seq<char> {
    strip_trailing_slash(ignore_entry(data_dir)) + "/"@
}

/// The new `.gitignore` content for a data directory: a fresh file when
/// there is none; the existing one (trailing whitespace trimmed) with the
/// entry appended when it does not mention the directory yet; no change
/// otherwise.
pub open spec fn spec_gitignore_update(existing: Option<Seq<char>>, data_dir: Seq<char>) -> Option<Seq<char>> {
    match existing {
        None => Some("# brainjar local DBs\n"@ + ignore_line(data_dir) + "\n"@),
        Some(c) => if contains_seq(c, ignore_entry(data_dir)) {
            None
        } else {
            Some(trim_end(c) + "\n# brainjar local DBs\n"@ + ignore_line(data_dir) + "\n"@)
        },
    }
}

fn strip_dot_slash_chars(s: &Vec<char>) -> (r: Vec<char>)
    ensures
        r@ == strip_dot_slash(s@),
{
    let mut i: usize = 0;
    assert(s@.skip(0) == s@);
    while s.len() - i >= 2 && s[i] == '.' && s[i + 1] == '/'
        invariant
            i <= s.len(),
            strip_dot_slash(s@) == strip_dot_slash(s@.skip(i as int)),
        decreases s.len() - i,
    {
        assert(s@.skip(i as int).skip(2) == s@.skip(i + 2));
        i = i + 2;
    }
    assert(s@.skip(i as int) == s@.subrange(i as int, s.len() as int));
    sub_chars(s, i, s.len())
}

pub(crate) fn strip_trailing_slash_chars(s: &Vec<char>) -> (r: Vec<char>)
    ensures
        r@ == strip_trailing_slash(s@),
{
    let mut n = s.len();
    assert(s@.take(n as int) == s@);
    while n > 0 && s[n - 1] == '/'
        invariant
            n <= s.len(),
            strip_trailing_slash(s@) == strip_trailing_slash(s@.take(n as int)),
        decreases n,
    {
        assert(s@.take(n as int).drop_last() == s@.take(n - 1));
        n = n - 1;
    }
    assert(s@.take(n as int) == s@.subrange(0, n as int));
    sub_chars(s, 0, n)
}

/// The new content of `.gitignore` after adding a data directory, or `None`
/// when the existing file already mentions it.
pub fn gitignore_update(existing: Option<&str>, data_dir: &str) -> (r: Option<String>)
    ensures
        opt_str(r) == spec_gitignore_update(opt_view_str(existing), data_dir@),
{
    let dc = to_chars(data_dir);
    let entry = strip_dot_slash_chars(&dc);
    let stem = strip_trailing_slash_chars(&entry);
    match existing {
        None => {
            let mut out: Vec<char> = Vec::new();
            push_str(&mut out, "# brainjar local DBs\n");
            append_chars(&mut out, &stem);
            push_str(&mut out, "/\n");
            assert(out@ =~= "# brainjar local DBs\n"@ + ignore_line(data_dir@) + "\n"@) by {
                reveal_strlit("/\n");
                reveal_strlit("/");
                reveal_strlit("\n");
            }
            Some(from_chars(&out))
        },
        Some(c) => {
            let cc = to_chars(c);
            if contains_vec(&cc, &entry) {
                None
            } else {
                let tw = trailing_ws_count(&cc);
                proof {
                    lemma_trailing_ws(cc@);
                }
                let kept = sub_chars(&cc, 0, cc.len() - tw);
                let mut out: Vec<char> = Vec::new();
                append_chars(&mut out, &kept);
                push_str(&mut out, "\n# brainjar local DBs\n");
                append_chars(&mut out, &stem);
                push_str(&mut out, "/\n");
                assert(kept@ == trim_end(c@));
                assert(out@ =~= trim_end(c@) + "\n# brainjar local DBs\n"@ + ignore_line(data_dir@) + "\n"@) by {
                    reveal_strlit("/\n");
                    reveal_strlit("/");
                    reveal_strlit("\n");
                }
                Some(from_chars(&out))
            }
        },
    }
}

// ─── Name order ──────────────────────────────────────────────────────────────

/// Entry `i` comes before entry `j` in name order: a smaller name, or the
/// same name and an earlier position (the order a stable sort by name
/// gives).
pub open spec fn name_before(names: Seq<Seq<char>>, i: int, j: int) -> bool {
    lex_lt(names[i], names[j]) || (names[i] == names[j] && i < j)
}

proof fn lemma_insert_sorted(names: Seq<Seq<char>>, list: Seq<usize>, p: int, k: usize)
    requires
        k < names.len(),
        0 <= p <= list.len(),
        forall|q: int| 0 <= q < list.len() ==> #[trigger] list[q] < k,
        forall|a: int, b: int| 0 <= a < b < list.len() ==> name_before(names, list[a] as int, list[b] as int),
        forall|q: int| 0 <= q < p ==> !lex_lt(names[k as int], #[trigger] names[list[q] as int]),
        p < list.len() ==> lex_lt(names[k as int], names[list[p] as int]),
    ensures
        forall|a: int, b: int| 0 <= a < b < list.insert(p, k).len()
            ==> name_before(names, list.insert(p, k)[a] as int, list.insert(p, k)[b] as int),
{
    let nk = names[k as int];
    let l2 = list.insert(p, k);
    assert forall|q: int| p <= q < list.len() implies lex_lt(nk, #[trigger] names[list[q] as int]) by {
        if q > p {
            let np = names[list[p] as int];
            let nq = names[list[q] as int];
            assert(name_before(names, list[p] as int, list[q] as int));
            if lex_lt(np, nq) {
                lemma_lex_transitive(nk, np, nq);
            }
        }
    }
    assert forall|a: int, b: int| 0 <= a < b < l2.len() implies name_before(names, l2[a] as int, l2[b] as int) by {
        if a < p && b < p {
            assert(l2[a] == list[a] && l2[b] == list[b]);
        } else if a < p && b == p {
            assert(l2[a] == list[a]);
            assert(l2[b] == k);
            lemma_lex_total(names[list[a] as int], nk);
        } else if a < p && b > p {
            assert(l2[a] == list[a] && l2[b] == list[b - 1]);
        } else if a == p {
            assert(l2[a] == k);
            assert(l2[b] == list[b - 1]);
        } else {
            assert(l2[a] == list[a - 1] && l2[b] == list[b - 1]);
        }
    }
}

/// The positions of `names` in name order: sorted by name (code point
/// order), equal names in their original order.  Every position occurs
/// once.
pub fn order_by_name(names: &Vec<String>) -> (r: Vec<usize>)
    ensures
        r@.len() == names@.len(),
        forall|p: int| 0 <= p < r@.len() ==> #[trigger] r@[p] < names@.len(),
        forall|p: int, q: int| 0 <= p < q < r@.len()
            ==> name_before(string_views(names@), r@[p] as int, r@[q] as int),
{
    let ghost ns = string_views(names@);
    let mut list: Vec<usize> = Vec::new();
    let mut k: usize = 0;
    while k < names.len()
        invariant
            k <= names.len(),
            ns == string_views(names@),
            list@.len() == k,
            forall|q: int| 0 <= q < list@.len() ==> #[trigger] list@[q] < k,
            forall|a: int, b: int| 0 <= a < b < list@.len() ==> name_before(ns, list@[a] as int, list@[b] as int),
        decreases names.len() - k,
    {
        let nk = to_chars(names[k].as_str());
        let mut p: usize = 0;
        let mut stop = false;
        while p < list.len() && !stop
            invariant
                p <= list@.len(),
                nk@ == ns[k as int],
                ns == string_views(names@),
                k < names.len(),
                forall|q: int| 0 <= q < list@.len() ==> #[trigger] list@[q] < k,
                forall|q: int| 0 <= q < p ==> !lex_lt(ns[k as int], #[trigger] ns[list@[q] as int]),
                stop ==> p < list@.len() && lex_lt(ns[k as int], ns[list@[p as int] as int]),
            decreases list@.len() - p + (if stop { 0int } else { 1int }),
        {
            let other = to_chars(names[list[p]].as_str());
            if chars_lt(&nk, &other) {
                stop = true;
            } else {
                p = p + 1;
            }
        }
        proof {
            lemma_insert_sorted(ns, list@, p as int, k);
        }
        let ghost old_list = list@;
        list.insert(p, k);
        assert forall|q: int| 0 <= q < list@.len() implies #[trigger] list@[q] < k + 1 by {
            if q < p {
                assert(list@[q] == old_list[q]);
            } else if q > p {
                assert(list@[q] == old_list[q - 1]);
            }
        }
        k = k + 1;
    }
    list
}

/// `ord` lists the positions of `names` in name order, each once.
pub open spec fn is_name_order(ord: Seq<usize>, names: Seq<Seq<char>>) -> bool {
    &&& ord.len() == names.len()
    &&& forall|p: int| 0 <= p < ord.len() ==> #[trigger] ord[p] < names.len()
    &&& forall|p: int, q: int| 0 <= p < q < ord.len() ==> name_before(names, ord[p] as int, ord[q] as int)
}

// ─── Wizard defaults ─────────────────────────────────────────────────────────

/// What an existing configuration pre-fills in the wizard's edit mode.
#[derive(Debug)]
pub struct WizardDefaults {
    pub data_dir: Option<String>,
    pub providers: Vec<ProviderEntry>,
    pub embed_provider: Option<String>,
    pub embed_model: Option<String>,
    pub embed_dimensions: Option<usize>,
    pub extract_provider: Option<String>,
    pub extract_model: Option<String>,
    pub knowledge_bases: Vec<KbConfig>,
}

/// An optional string, or the empty string.
pub open spec fn or_empty(o: Option<Seq<char>>) -> Seq<char> {
    match o {
        Some(s) => s,
        None => Seq::empty(),
    }
}

/// The names of a provider table.
pub open spec fn provider_names(ps: Seq<(String, ProviderConfig)>) -> Seq<Seq<char>> {
    Seq::new(ps.len(), |i: int| ps[i].0@)
}

/// The names of knowledge bases.
pub open spec fn kb_names(kbs: Seq<KbConfig>) -> Seq<Seq<char>> {
    Seq::new(kbs.len(), |i: int| kbs[i].name@)
}

/// A wizard provider entry holds the name, key and URL of a table entry
/// (unset values as empty strings).
pub open spec fn entry_of(e: ProviderEntry, p: (String, ProviderConfig)) -> bool {
    &&& e.name@ == p.0@
    &&& e.api_key@ == or_empty(opt_str(p.1.api_key))
    &&& e.base_url@ == or_empty(opt_str(p.1.base_url))
}

/// Two knowledge-base entries agree on every field.
pub open spec fn same_kb(a: KbConfig, b: KbConfig) -> bool {
    &&& a.name@ == b.name@
    &&& string_views(a.watch_paths@) == string_views(b.watch_paths@)
    &&& opt_str(a.description) == opt_str(b.description)
    &&& a.auto_sync == b.auto_sync
}

fn string_or_empty(o: &Option<String>) -> (r: String)
    ensures
        r@ == or_empty(opt_str(*o)),
{
    match o {
        Some(s) => s.clone(),
        None => {
            let e = string_of("");
            proof {
                reveal_strlit("");
            }
            assert(e@ =~= Seq::<char>::empty());
            e
        },
    }
}

fn copy_strings(v: &Vec<String>) -> (r: Vec<String>)
    ensures
        string_views(r@) == string_views(v@),
{
    let mut out: Vec<String> = Vec::new();
    let mut i: usize = 0;
    while i < v.len()
        invariant
            i <= v.len(),
            string_views(out@) == string_views(v@).take(i as int),
        decreases v.len() - i,
    {
        let ghost before = out@;
        out.push(v[i].clone());
        assert(string_views(out@) =~= string_views(before).push(string_views(v@)[i as int]));
        assert(string_views(v@).take(i + 1) =~= string_views(v@).take(i as int).push(string_views(v@)[i as int]));
        i = i + 1;
    }
    assert(string_views(v@).take(v.len() as int) =~= string_views(v@));
    out
}

fn copy_kb(kb: &KbConfig) -> (r: KbConfig)
    ensures
        same_kb(r, *kb),
{
    KbConfig {
        name: kb.name.clone(),
        watch_paths: copy_strings(&kb.watch_paths),
        description: clone_opt(&kb.description),
        auto_sync: kb.auto_sync,
    }
}

fn provider_name_list(ps: &Vec<(String, ProviderConfig)>) -> (r: Vec<String>)
    ensures
        string_views(r@) == provider_names(ps@),
{
    let mut out: Vec<String> = Vec::new();
    let mut i: usize = 0;
    while i < ps.len()
        invariant
            i <= ps.len(),
            string_views(out@) == provider_names(ps@).take(i as int),
        decreases ps.len() - i,
    {
        let ghost before = out@;
        out.push(ps[i].0.clone());
        assert(string_views(out@) =~= string_views(before).push(provider_names(ps@)[i as int]));
        assert(provider_names(ps@).take(i + 1) =~= provider_names(ps@).take(i as int).push(provider_names(ps@)[i as int]));
        i = i + 1;
    }
    assert(provider_names(ps@).take(ps.len() as int) =~= provider_names(ps@));
    out
}

fn kb_name_list(kbs: &Vec<KbConfig>) -> (r: Vec<String>)
    ensures
        string_views(r@) == kb_names(kbs@),
{
    let mut out: Vec<String> = Vec::new();
    let mut i: usize = 0;
    while i < kbs.len()
        invariant
            i <= kbs.len(),
            string_views(out@) == kb_names(kbs@).take(i as int),
        decreases kbs.len() - i,
    {
        let ghost before = out@;
        out.push(kbs[i].name.clone());
        assert(string_views(out@) =~= string_views(before).push(kb_names(kbs@)[i as int]));
        assert(kb_names(kbs@).take(i + 1) =~= kb_names(kbs@).take(i as int).push(kb_names(kbs@)[i as int]));
        i = i + 1;
    }
    assert(kb_names(kbs@).take(kbs.len() as int) =~= kb_names(kbs@));
    out
}

impl WizardDefaults {
    /// The defaults an existing configuration gives the wizard: its data
    /// directory, its providers and knowledge bases each in name order (a
    /// missing key or URL as an empty string), and the providers and models
    /// of its embeddings and extraction sections.
    pub fn from_config(
        data_dir: &Option<String>,
        providers: &Vec<(String, ProviderConfig)>,
        embeddings: &Option<EmbeddingConfig>,
        extraction: &Option<ExtractionConfig>,
        knowledge_bases: &Vec<KbConfig>,
    ) -> (r: Self)
        ensures
            opt_str(r.data_dir) == opt_str(*data_dir),
            exists|ord: Seq<usize>| {
                &&& is_name_order(ord, provider_names(providers@))
                &&& r.providers@.len() == ord.len()
                &&& forall|p: int| 0 <= p < ord.len() ==> #[trigger] entry_of(r.providers@[p], providers@[ord[p] as int])
            },
            exists|ord: Seq<usize>| {
                &&& is_name_order(ord, kb_names(knowledge_bases@))
                &&& r.knowledge_bases@.len() == ord.len()
                &&& forall|p: int| 0 <= p < ord.len() ==> #[trigger] same_kb(r.knowledge_bases@[p], knowledge_bases@[ord[p] as int])
            },
            opt_str(r.embed_provider) == match embeddings {
                Some(e) => Some(e.provider@),
                None => None,
            },
            opt_str(r.embed_model) == match embeddings {
                Some(e) => Some(e.model@),
                None => None,
            },
            r.embed_dimensions == match embeddings {
                Some(e) => Some(e.dimensions),
                None => None,
            },
            opt_str(r.extract_provider) == match extraction {
                Some(e) => Some(e.provider@),
                None => None,
            },
            opt_str(r.extract_model) == match extraction {
                Some(e) => Some(e.model@),
                None => None,
            },
    {
        let pnames = provider_name_list(providers);
        let pord = order_by_name(&pnames);
        assert(pnames@.len() == string_views(pnames@).len());
        let mut ps: Vec<ProviderEntry> = Vec::new();
        let mut i: usize = 0;
        while i < pord.len()
            invariant
                i <= pord.len(),
                pord@.len() == providers@.len(),
                forall|p: int| 0 <= p < pord@.len() ==> #[trigger] pord@[p] < providers@.len(),
                ps@.len() == i,
                forall|p: int| 0 <= p < i ==> #[trigger] entry_of(ps@[p], providers@[pord@[p] as int]),
            decreases pord.len() - i,
        {
            let e = &providers[pord[i]];
            ps.push(ProviderEntry {
                name: e.0.clone(),
                api_key: string_or_empty(&e.1.api_key),
                base_url: string_or_empty(&e.1.base_url),
            });
            i = i + 1;
        }
        assert(is_name_order(pord@, provider_names(providers@)));
        let knames = kb_name_list(knowledge_bases);
        let kord = order_by_name(&knames);
        assert(knames@.len() == string_views(knames@).len());
        let mut ks: Vec<KbConfig> = Vec::new();
        let mut j: usize = 0;
        while j < kord.len()
            invariant
                j <= kord.len(),
                kord@.len() == knowledge_bases@.len(),
                forall|p: int| 0 <= p < kord@.len() ==> #[trigger] kord@[p] < knowledge_bases@.len(),
                ks@.len() == j,
                forall|p: int| 0 <= p < j ==> #[trigger] same_kb(ks@[p], knowledge_bases@[kord@[p] as int]),
            decreases kord.len() - j,
        {
            ks.push(copy_kb(&knowledge_bases[kord[j]]));
            j = j + 1;
        }
        assert(is_name_order(kord@, kb_names(knowledge_bases@)));
        WizardDefaults {
            data_dir: clone_opt(data_dir),
            providers: ps,
            embed_provider: match embeddings {
                Some(e) => Some(e.provider.clone()),
                None => None,
            },
            embed_model: match embeddings {
                Some(e) => Some(e.model.clone()),
                None => None,
            },
            embed_dimensions: match embeddings {
                Some(e) => Some(e.dimensions),
                None => None,
            },
            extract_provider: match extraction {
                Some(e) => Some(e.provider.clone()),
                None => None,
            },
            extract_model: match extraction {
                Some(e) => Some(e.model.clone()),
                None => None,
            },
            knowledge_bases: ks,
        }
    }
}

// ─── Wizard edits ────────────────────────────────────────────────────────────

/// Whether a data directory is local to the project (`.brainjar`, `./…` or
/// an absolute path), so that it belongs in the project's `.gitignore`.
pub open spec fn spec_is_project_local(data_dir: Seq<char>) -> bool {
    data_dir == ".brainjar"@ || starts_with(data_dir, "./"@) || (data_dir.len() > 0 && data_dir[0] == '/')
}

/// Whether a data directory is local to the project.
pub fn is_project_local(data_dir: &str) -> (r: bool)
    ensures
        r == spec_is_project_local(data_dir@),
{
    let d = to_chars(data_dir);
    chars_eq_str(&d, ".brainjar") || starts_with_chars(&d, "./") || (d.len() > 0 && d[0] == '/')
}

/// The providers without those named `name`, in order.
pub open spec fn providers_without(ps: Seq<ProviderEntry>, name: Seq<char>) -> Seq<ProviderEntry>
    decreases ps.len(),
{
    if ps.len() == 0 {
        Seq::empty()
    } else {
        let prev = providers_without(ps.drop_last(), name);
        if ps.last().name@ == name {
            prev
        } else {
            prev.push(ps.last())
        }
    }
}

/// The providers with `entry` in place of any provider of the same name,
/// `entry` last.
pub fn with_provider(providers: Vec<ProviderEntry>, entry: ProviderEntry) -> (r: Vec<ProviderEntry>)
    ensures
        r@ == providers_without(providers@, entry.name@).push(entry),
{
    let ghost all = providers@;
    let total = providers.len();
    let name = to_chars(entry.name.as_str());
    let mut rest = providers;
    let mut out: Vec<ProviderEntry> = Vec::new();
    let mut k: usize = 0;
    while rest.len() > 0
        invariant
            k + rest.len() == total,
            total == all.len(),
            rest@ == all.skip(k as int),
            out@ == providers_without(all.take(k as int), name@),
            name@ == entry.name@,
        decreases rest.len(),
    {
        let ghost before = rest@;
        let p = rest.remove(0);
        assert(p == all[k as int]);
        assert(rest@ =~= all.skip(k + 1));
        assert(all.take(k + 1).drop_last() =~= all.take(k as int));
        let pc = to_chars(p.name.as_str());
        if !chars_eq(&pc, &name) {
            out.push(p);
        }
        k = k + 1;
    }
    assert(all.take(k as int) =~= all);
    out.push(entry);
    out
}

/// The knowledge bases without those named `name`, in order.
pub open spec fn kbs_without(ks: Seq<KbConfig>, name: Seq<char>) -> Seq<KbConfig>
    decreases ks.len(),
{
    if ks.len() == 0 {
        Seq::empty()
    } else {
        let prev = kbs_without(ks.drop_last(), name);
        if ks.last().name@ == name {
            prev
        } else {
            prev.push(ks.last())
        }
    }
}

/// The knowledge bases with `entry` in place of any of the same name,
/// `entry` last.
pub fn with_kb(kbs: Vec<KbConfig>, entry: KbConfig) -> (r: Vec<KbConfig>)
    ensures
        r@ == kbs_without(kbs@, entry.name@).push(entry),
{
    let ghost all = kbs@;
    let total = kbs.len();
    let name = to_chars(entry.name.as_str());
    let mut rest = kbs;
    let mut out: Vec<KbConfig> = Vec::new();
    let mut k: usize = 0;
    while rest.len() > 0
        invariant
            k + rest.len() == total,
            total == all.len(),
            rest@ == all.skip(k as int),
            out@ == kbs_without(all.take(k as int), name@),
            name@ == entry.name@,
        decreases rest.len(),
    {
        let p = rest.remove(0);
        assert(p == all[k as int]);
        assert(rest@ =~= all.skip(k + 1));
        assert(all.take(k + 1).drop_last() =~= all.take(k as int));
        let pc = to_chars(p.name.as_str());
        if !chars_eq(&pc, &name) {
            out.push(p);
        }
        k = k + 1;
    }
    assert(all.take(k as int) =~= all);
    out.push(entry);
    out
}

} // verus!

//! Configuration types that the library's logic reads, and the choices it
//! makes over them: which credential and which endpoint a provider uses.
use vstd::prelude::*;

use crate::paths::{path_is_absolute, path_join, spec_is_absolute, spec_join};
use crate::text::{string_of, to_chars, from_chars, sub_chars, chars_eq};

verus! {

/// The kind of a knowledge base (or of one of its folders).
#[derive(Debug, Clone, Copy, PartialEq, Eq)]
pub enum KbType {
    Docs,
    Code,
}

/// Credentials of one provider (`[providers.<name>]`).
#[derive(Debug, Clone)]
pub struct ProviderConfig {
    pub api_key: Option<String>,
    pub base_url: Option<String>,
}

/// The `[embeddings]` section.
#[derive(Debug, Clone)]
pub struct EmbeddingConfig {
    /// "gemini", "openai", "ollama"
    pub provider: String,
    pub model: String,
    /// Kept for older configs: an api_key directly on the section.
    pub api_key: Option<String>,
    /// Kept for older configs: a base_url directly on the section.
    pub base_url: Option<String>,
    pub dimensions: usize,
}

/// The `[extraction]` section.
#[derive(Debug, Clone)]
pub struct ExtractionConfig {
    pub provider: String,
    pub model: String,
    /// Kept for older configs: an api_key directly on the section.
    pub api_key: Option<String>,
    /// Kept for older configs: a base_url directly on the section.
    pub base_url: Option<String>,
    pub enabled: bool,
}

/// The `[watch]` section.
#[derive(Debug, Clone, Copy)]
pub struct WatchConfig {
    /// Polling interval in seconds (default: 300)
    pub interval: Option<u64>,
}

/// The view of an optional string.
pub open spec fn opt_str(o: Option<String>) -> Option<Seq<char>> {
    match o {
        Some(s) => Some(s@),
        None => None,
    }
}

/// The view of an optional string slice.
pub open spec fn opt_slice(o: Option<&str>) -> Option<Seq<char>> {
    match o {
        Some(s) => Some(s@),
        None => None,
    }
}

/// A copy of an optional string.
pub fn clone_opt(o: &Option<String>) -> (r: Option<String>)
    ensures
        opt_str(r) == opt_str(*o),
{
    match o {
        Some(s) => Some(s.clone()),
        None => None,
    }
}

/// The provider table as (name, api_key, base_url) views.
pub open spec fn providers_view(ps: Seq<(String, ProviderConfig)>) -> Seq<(Seq<char>, Option<Seq<char>>, Option<Seq<char>>)> {
    Seq::new(ps.len(), |i: int| (ps[i].0@, opt_str(ps[i].1.api_key), opt_str(ps[i].1.base_url)))
}

/// The first entry of the provider table named `name`, or -1.
pub open spec fn provider_index(ps: Seq<(Seq<char>, Option<Seq<char>>, Option<Seq<char>>)>, name: Seq<char>) -> int
    decreases ps.len(),
{
    if ps.len() == 0 {
        -1
    } else {
        let r = provider_index(ps.drop_last(), name);
        if r >= 0 {
            r
        } else if ps.last().0 == name {
            ps.len() - 1
        } else {
            -1
        }
    }
}

fn find_provider(ps: &Vec<(String, ProviderConfig)>, name: &str) -> (r: Option<usize>)
    ensures
        match r {
            Some(i) => i < ps.len() && i as int == provider_index(providers_view(ps@), name@),
            None => provider_index(providers_view(ps@), name@) == -1,
        },
{
    let ghost pv = providers_view(ps@);
    let nc = to_chars(name);
    let mut k: usize = 0;
    while k < ps.len()
        invariant
            k <= ps.len(),
            pv == providers_view(ps@),
            nc@ == name@,
            provider_index(pv.take(k as int), name@) == -1,
        decreases ps.len() - k,
    {
        assert(pv.take(k as int + 1).drop_last() == pv.take(k as int));
        let kc = to_chars(ps[k].0.as_str());
        if chars_eq(&kc, &nc) {
            proof {
                lemma_provider_index_prefix(pv, name@, (k + 1) as nat);
            }
            return Some(k);
        }
        k = k + 1;
    }
    assert(pv.take(ps.len() as int) == pv);
    None
}

proof fn lemma_provider_index_prefix(ps: Seq<(Seq<char>, Option<Seq<char>>, Option<Seq<char>>)>, name: Seq<char>, k: nat)
    requires
        1 <= k <= ps.len(),
        provider_index(ps.take(k as int), name) >= 0,
    ensures
        provider_index(ps, name) == provider_index(ps.take(k as int), name),
    decreases ps.len() - k,
{
    if k < ps.len() {
        let k1: nat = k + 1;
        assert(ps.take(k1 as int).drop_last() == ps.take(k as int));
        assert(provider_index(ps.take(k1 as int), name) == provider_index(ps.take(k as int), name));
        lemma_provider_index_prefix(ps, name, k1);
    } else {
        assert(ps.take(k as int) == ps);
    }
}

/// The credential a provider uses, before `${VAR}` expansion: the
/// `[providers.<name>]` api_key when it is set, else the key given on the
/// section itself.
pub open spec fn spec_choose_api_key(
    ps: Seq<(Seq<char>, Option<Seq<char>>, Option<Seq<char>>)>,
    provider: Seq<char>,
    legacy: Option<Seq<char>>,
) -> Option<Seq<char>> {
    let i = provider_index(ps, provider);
    if i >= 0 && ps[i].1 is Some {
        ps[i].1
    } else {
        legacy
    }
}

/// The endpoint a provider uses: the `[providers.<name>]` base_url when it
/// is set, else the one given on the section itself.
pub open spec fn spec_choose_base_url(
    ps: Seq<(Seq<char>, Option<Seq<char>>, Option<Seq<char>>)>,
    provider: Seq<char>,
    legacy: Option<Seq<char>>,
) -> Option<Seq<char>> {
    let i = provider_index(ps, provider);
    if i >= 0 && ps[i].2 is Some {
        ps[i].2
    } else {
        legacy
    }
}

/// The credential a provider uses, before `${VAR}` expansion: the
/// `[providers.<name>]` api_key when set, else `legacy_key`.
pub fn choose_api_key(providers: &Vec<(String, ProviderConfig)>, provider: &str, legacy_key: Option<&str>) -> (r: Option<String>)
    ensures
        opt_str(r) == spec_choose_api_key(providers_view(providers@), provider@, opt_slice(legacy_key)),
{
    match find_provider(providers, provider) {
        Some(i) => {
            if providers[i].1.api_key.is_some() {
                return clone_opt(&providers[i].1.api_key);
            }
        },
        None => {},
    }
    match legacy_key {
        Some(k) => Some(string_of(k)),
        None => None,
    }
}

/// The base URL a provider uses: the `[providers.<name>]` base_url when
/// set, else `legacy_url`.
pub fn resolve_base_url(providers: &Vec<(String, ProviderConfig)>, provider: &str, legacy_url: Option<&str>) -> (r: Option<String>)
    ensures
        opt_str(r) == spec_choose_base_url(providers_view(providers@), provider@, opt_slice(legacy_url)),
{
    match find_provider(providers, provider) {
        Some(i) => {
            if providers[i].1.base_url.is_some() {
                return clone_opt(&providers[i].1.base_url);
            }
        },
        None => {},
    }
    match legacy_url {
        Some(k) => Some(string_of(k)),
        None => None,
    }
}

/// The variable a value refers to when it has the form `${NAME}`.
pub open spec fn spec_env_var_reference(key: Seq<char>) -> Option<Seq<char>> {
    if key.len() >= 3 && key[0] == '$' && key[1] == '{' && key.last() == '}' {
        Some(key.subrange(2, key.len() - 1))
    } else {
        None
    }
}

/// The name of the environment variable a value refers to when it has the
/// form `${NAME}`; `None` for a literal value.
pub fn env_var_reference(key: &str) -> (r: Option<String>)
    ensures
        opt_str(r) == spec_env_var_reference(key@),
{
    let kc = to_chars(key);
    let n = kc.len();
    if n >= 3 && kc[0] == '$' && kc[1] == '{' && kc[n - 1] == '}' {
        let inner = sub_chars(&kc, 2, n - 1);
        Some(from_chars(&inner))
    } else {
        None
    }
}

/// The value of the first variable named `name` among `env`, if any.
pub open spec fn env_value(env: Seq<(Seq<char>, Seq<char>)>, name: Seq<char>) -> Option<Seq<char>>
    decreases env.len(),
{
    if env.len() == 0 {
        None
    } else if env[0].0 == name {
        Some(env[0].1)
    } else {
        env_value(env.drop_first(), name)
    }
}

/// The views of (name, value) pairs.
pub open spec fn env_view(env: Seq<(String, String)>) -> Seq<(Seq<char>, Seq<char>)> {
    Seq::new(env.len(), |i: int| (env[i].0@, env[i].1@))
}

/// A configured value read against the environment: a `${NAME}` reference
/// is the variable's value (empty when it is unset), anything else is
/// itself.
pub open spec fn spec_expand_env(key: Seq<char>, env: Seq<(Seq<char>, Seq<char>)>) -> Seq<char> {
    match spec_env_var_reference(key) {
        Some(name) => match env_value(env, name) {
            Some(v) => v,
            None => Seq::empty(),
        },
        None => key,
    }
}

/// Reads a configured value against the environment's variables.
pub fn expand_env_value(key: &str, env: &Vec<(String, String)>) -> (r: String)
    ensures
        r@ == spec_expand_env(key@, env_view(env@)),
{
    match env_var_reference(key) {
        None => string_of(key),
        Some(name) => {
            let nc = to_chars(name.as_str());
            let ghost ev = env_view(env@);
            assert(ev.skip(0) =~= ev);
            let mut i: usize = 0;
            while i < env.len()
                invariant
                    i <= env.len(),
                    ev == env_view(env@),
                    spec_env_var_reference(key@) == Some(nc@),
                    env_value(ev, nc@) == env_value(ev.skip(i as int), nc@),
                decreases env.len() - i,
            {
                let ghost rest = ev.skip(i as int);
                assert(rest[0] == ev[i as int]);
                assert(rest.drop_first() =~= ev.skip(i + 1));
                let c = to_chars(env[i].0.as_str());
                if chars_eq(&c, &nc) {
                    assert(ev[i as int].0 == nc@);
                    assert(env_value(rest, nc@) == Some(ev[i as int].1));
                    return string_of(env[i].1.as_str());
                }
                i = i + 1;
            }
            assert(ev.skip(env.len() as int).len() == 0);
            proof {
                reveal_strlit("");
            }
            assert(""@ =~= Seq::<char>::empty());
            string_of("")
        },
    }
}

/// The credential a provider uses: the `[providers.<name>]` api_key when it
/// is set, else `legacy_key`, either read against the environment's
/// variables; none when neither is given.
pub fn resolve_api_key(
    providers: &Vec<(String, ProviderConfig)>,
    provider: &str,
    legacy_key: Option<&str>,
    env: &Vec<(String, String)>,
) -> (r: Option<String>)
    ensures
        opt_str(r) == (match spec_choose_api_key(providers_view(providers@), provider@, opt_slice(legacy_key)) {
            Some(k) => Some(spec_expand_env(k, env_view(env@))),
            None => None,
        }),
{
    match choose_api_key(providers, provider, legacy_key) {
        Some(k) => Some(expand_env_value(k.as_str(), env)),
        None => None,
    }
}

// ─── Paths ───────────────────────────────────────────────────────────────────

/// `s` without its leading run of `c`.
pub open spec fn strip_leading(s: Seq<char>, c: char) -> Seq<char>
    decreases s.len(),
{
    if s.len() > 0 && s[0] == c {
        strip_leading(s.drop_first(), c)
    } else {
        s
    }
}

/// The position after the run of `c` that starts at `from`.
fn skip_run(s: &Vec<char>, c: char, from: usize) -> (k: usize)
    requires
        from <= s.len(),
    ensures
        from <= k <= s.len(),
        strip_leading(s@.subrange(from as int, s.len() as int), c) == s@.subrange(k as int, s.len() as int),
{
    let mut k = from;
    while k < s.len() && s[k] == c
        invariant
            from <= k <= s.len(),
            strip_leading(s@.subrange(from as int, s.len() as int), c)
                == strip_leading(s@.subrange(k as int, s.len() as int), c),
        decreases s.len() - k,
    {
        assert(s@.subrange(k as int, s.len() as int).drop_first() =~= s@.subrange(k + 1, s.len() as int));
        k = k + 1;
    }
    k
}

/// A path with a leading `~` read against the home directory: the `~`s
/// and then the `/`s are taken off its front and the rest is joined to the
/// home (the home itself when nothing is left). Other paths, or any path
/// when there is no home, stay as they are.
pub open spec fn spec_expand_tilde(p: Seq<char>, home: Option<Seq<char>>) -> Seq<char> {
    match home {
        Some(h) => if p.len() > 0 && p[0] == '~' {
            let rest = strip_leading(strip_leading(p, '~'), '/');
            if rest.len() == 0 {
                h
            } else {
                spec_join(h, rest)
            }
        } else {
            p
        },
        None => p,
    }
}

/// Expands a leading `~` of `p` to `home`.
pub fn expand_tilde(p: &str, home: Option<&str>) -> (r: String)
    ensures
        r@ == spec_expand_tilde(p@, match home {
            Some(h) => Some(h@),
            None => None,
        }),
{
    let pc = to_chars(p);
    match home {
        Some(h) => {
            if pc.len() > 0 && pc[0] == '~' {
                let a = skip_run(&pc, '~', 0);
                let b = skip_run(&pc, '/', a);
                assert(pc@.subrange(0, pc.len() as int) =~= pc@);
                if b == pc.len() {
                    string_of(h)
                } else {
                    let rest = from_chars(&sub_chars(&pc, b, pc.len()));
                    path_join(h, rest.as_str())
                }
            } else {
                string_of(p)
            }
        },
        None => string_of(p),
    }
}

/// A configured path made absolute: a bare `~` is the home directory, `~/x`
/// lies under it (the two characters after which `x` starts taken off), an
/// absolute path stays as it is, any other path lies under the
/// configuration directory.
pub open spec fn spec_expand_path(p: Seq<char>, home: Option<Seq<char>>, config_dir: Seq<char>) -> Seq<char> {
    match home {
        Some(h) if p.len() > 0 && p[0] == '~' => if p.len() == 1 {
            h
        } else {
            spec_join(h, p.subrange(2, p.len() as int))
        },
        _ => if spec_is_absolute(p) {
            p
        } else {
            spec_join(config_dir, p)
        },
    }
}

/// Resolves a watch path of the configuration against the home and the
/// configuration's directory. The character after a leading `~` must be
/// ASCII when there is a home.
pub fn expand_path(p: &str, home: Option<&str>, config_dir: &str) -> (r: String)
    requires
        home is Some && p@.len() >= 2 && p@[0] == '~' ==> (p@[1] as u32) < 128,
    ensures
        r@ == spec_expand_path(p@, match home {
            Some(h) => Some(h@),
            None => None,
        }, config_dir@),
{
    let pc = to_chars(p);
    match home {
        Some(h) => {
            if pc.len() == 1 && pc[0] == '~' {
                return string_of(h);
            }
            if pc.len() > 0 && pc[0] == '~' {
                let rest = from_chars(&sub_chars(&pc, 2, pc.len()));
                return path_join(h, rest.as_str());
            }
        },
        None => {},
    }
    if path_is_absolute(p) {
        string_of(p)
    } else {
        path_join(config_dir, p)
    }
}

} // verus!

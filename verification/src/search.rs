//! Search: which engines a query runs, and the text and key handling around
//! the engines — FTS5 query sanitising, content normalisation, filename
//! matching and first-occurrence deduplication.
use vstd::prelude::*;

use crate::paths::{path_file_stem, spec_file_stem};
use crate::text::{
    chars_eq, contains_seq, contains_vec, from_chars, join_strings, join_with, spec_lowercase,
    split_whitespace_chars, string_views, to_chars, to_lowercase, views, ws_words, split_ws,
};

verus! {

// ─── Engines and modes ───────────────────────────────────────────────────────

/// Individual search engines that can be combined.
#[derive(Debug, Clone, Copy, PartialEq, Eq, Structural, Hash)]
pub enum SearchEngine {
    /// Fuzzy-corrected FTS5 BM25
    Fuzzy,
    /// Raw FTS5 BM25 (no fuzzy correction)
    Text,
    /// Graph entity traversal
    Graph,
    /// Vector KNN similarity
    Vector,
    /// Local file scanner
    Local,
    /// Filename stem matching
    Filename,
}

/// The set of search engines to run.  No engine occurs twice.
#[derive(Debug, Clone)]
pub struct SearchMode {
    pub engines: Vec<SearchEngine>,
}

/// The default engines: fuzzy, graph, vector and filename.
pub open spec fn default_engines() -> Set<SearchEngine> {
    set![SearchEngine::Fuzzy, SearchEngine::Graph, SearchEngine::Vector, SearchEngine::Filename]
}

/// The engines that explicit flags select (local excluded).
pub open spec fn flag_engines(text: bool, graph: bool, vector: bool, filename: bool) -> Set<SearchEngine> {
    Set::new(|e: SearchEngine| {
        ||| e == SearchEngine::Text && text
        ||| e == SearchEngine::Graph && graph
        ||| e == SearchEngine::Vector && vector
        ||| e == SearchEngine::Filename && filename
    })
}

/// The engines `SearchMode::from_flags` selects: local alone when asked
/// for, else the flagged engines, else the default ones.
pub open spec fn spec_from_flags(text: bool, graph: bool, vector: bool, local: bool, filename: bool) -> Set<SearchEngine> {
    if local {
        set![SearchEngine::Local]
    } else if text || graph || vector || filename {
        flag_engines(text, graph, vector, filename)
    } else {
        default_engines()
    }
}

fn push_engine(v: &mut Vec<SearchEngine>, e: SearchEngine)
    requires
        !old(v)@.contains(e),
    ensures
        final(v)@ == old(v)@.push(e),
{
    v.push(e);
}

impl SearchMode {
    /// No engine occurs twice.
    pub open spec fn wf(&self) -> bool {
        self.engines@.no_duplicates()
    }

    /// The engines, as a set.
    pub open spec fn engine_set(&self) -> Set<SearchEngine> {
        self.engines@.to_set()
    }

    /// Default: fuzzy + graph + vector + filename.
    pub fn default_mode() -> (r: Self)
        ensures
            r.wf(),
            r.engine_set() == default_engines(),
    {
        let engines = vec![SearchEngine::Fuzzy, SearchEngine::Graph, SearchEngine::Vector, SearchEngine::Filename];
        let r = SearchMode { engines };
        assert(r.engines@.to_set() =~= default_engines()) by {
            assert(r.engines@[0] == SearchEngine::Fuzzy);
            assert(r.engines@[1] == SearchEngine::Graph);
            assert(r.engines@[2] == SearchEngine::Vector);
            assert(r.engines@[3] == SearchEngine::Filename);
        }
        r
    }

    /// Builds a mode from explicit flags.  `local` excludes every other
    /// engine; with no flag set, the default mode.
    pub fn from_flags(text: bool, graph: bool, vector: bool, local: bool, filename: bool) -> (r: Self)
        ensures
            r.wf(),
            r.engine_set() == spec_from_flags(text, graph, vector, local, filename),
    {
        if local {
            let r = SearchMode { engines: vec![SearchEngine::Local] };
            assert(r.engines@.to_set() =~= set![SearchEngine::Local]) by {
                assert(r.engines@[0] == SearchEngine::Local);
            }
            return r;
        }
        let mut engines: Vec<SearchEngine> = Vec::new();
        if text {
            push_engine(&mut engines, SearchEngine::Text);
        }
        if graph {
            push_engine(&mut engines, SearchEngine::Graph);
        }
        if vector {
            push_engine(&mut engines, SearchEngine::Vector);
        }
        if filename {
            push_engine(&mut engines, SearchEngine::Filename);
        }
        if engines.len() == 0 {
            return Self::default_mode();
        }
        let r = SearchMode { engines };
        assert(r.engines@.to_set() =~= flag_engines(text, graph, vector, filename)) by {
            assert forall|e: SearchEngine| flag_engines(text, graph, vector, filename).contains(e)
                implies r.engines@.contains(e) by {
                if e == SearchEngine::Text {
                    assert(r.engines@[0] == e);
                } else if e == SearchEngine::Graph {
                    if text {
                        assert(r.engines@[1] == e);
                    } else {
                        assert(r.engines@[0] == e);
                    }
                } else if e == SearchEngine::Vector {
                    let k: int = (if text { 1int } else { 0int }) + (if graph { 1int } else { 0int });
                    assert(r.engines@[k] == e);
                } else {
                    let k: int = (if text { 1int } else { 0int }) + (if graph { 1int } else { 0int })
                        + (if vector { 1int } else { 0int });
                    assert(r.engines@[k] == e);
                }
            }
        }
        r
    }

    /// Whether the mode runs `engine`.
    pub fn has(&self, engine: SearchEngine) -> (r: bool)
        ensures
            r == self.engine_set().contains(engine),
    {
        let mut k: usize = 0;
        while k < self.engines.len()
            invariant
                k <= self.engines.len(),
                forall|i: int| 0 <= i < k ==> self.engines@[i] != engine,
            decreases self.engines.len() - k,
        {
            if self.engines[k] == engine {
                assert(self.engines@.contains(engine));
                return true;
            }
            k = k + 1;
        }
        false
    }

    /// Whether to run fuzzy vocabulary correction before FTS.
    pub fn run_fuzzy(&self) -> (r: bool)
        ensures
            r == self.engine_set().contains(SearchEngine::Fuzzy),
    {
        self.has(SearchEngine::Fuzzy)
    }

    /// Whether to run any FTS (fuzzy or raw text).
    pub fn run_fts(&self) -> (r: bool)
        ensures
            r == (self.engine_set().contains(SearchEngine::Fuzzy) || self.engine_set().contains(SearchEngine::Text)),
    {
        self.has(SearchEngine::Fuzzy) || self.has(SearchEngine::Text)
    }

    /// Whether to run the graph engine.
    pub fn run_graph(&self) -> (r: bool)
        ensures
            r == self.engine_set().contains(SearchEngine::Graph),
    {
        self.has(SearchEngine::Graph)
    }

    /// Whether to run the vector engine.
    pub fn run_vector(&self) -> (r: bool)
        ensures
            r == self.engine_set().contains(SearchEngine::Vector),
    {
        self.has(SearchEngine::Vector)
    }

    /// Whether to run the local scanner.
    pub fn run_local(&self) -> (r: bool)
        ensures
            r == self.engine_set().contains(SearchEngine::Local),
    {
        self.has(SearchEngine::Local)
    }

    /// Whether to run filename matching.
    pub fn run_filename(&self) -> (r: bool)
        ensures
            r == self.engine_set().contains(SearchEngine::Filename),
    {
        self.has(SearchEngine::Filename)
    }
}

/// A mode built from flags always runs some engine; the local scanner runs
/// alone or not at all; and the default mode runs every engine but the raw
/// text and local ones.
pub proof fn law_search_modes(text: bool, graph: bool, vector: bool, local: bool, filename: bool)
    ensures
        !spec_from_flags(text, graph, vector, local, filename).is_empty(),
        spec_from_flags(text, graph, vector, local, filename).contains(SearchEngine::Local)
            ==> spec_from_flags(text, graph, vector, local, filename) == set![SearchEngine::Local],
        local ==> spec_from_flags(text, graph, vector, local, filename).contains(SearchEngine::Local),
        !default_engines().contains(SearchEngine::Text),
        !default_engines().contains(SearchEngine::Local),
{
    let s = spec_from_flags(text, graph, vector, local, filename);
    if local {
        assert(s.contains(SearchEngine::Local));
    } else if text || graph || vector || filename {
        if text {
            assert(s.contains(SearchEngine::Text));
        } else if graph {
            assert(s.contains(SearchEngine::Graph));
        } else if vector {
            assert(s.contains(SearchEngine::Vector));
        } else {
            assert(s.contains(SearchEngine::Filename));
        }
    } else {
        assert(s.contains(SearchEngine::Fuzzy));
    }
}

// ─── Query and content text ──────────────────────────────────────────────────

/// A character FTS5 reads as an operator.
pub open spec fn is_fts_special(c: char) -> bool {
    c == '?' || c == '*' || c == '(' || c == ')' || c == '"' || c == '+' || c == '-' || c == '^'
        || c == '{' || c == '}' || c == '~'
}

/// `s` without FTS5 operator characters.
pub open spec fn strip_fts_special(s: Seq<char>) -> Seq<char>
    decreases s.len(),
{
    if s.len() == 0 {
        Seq::empty()
    } else if is_fts_special(s.last()) {
        strip_fts_special(s.drop_last())
    } else {
        strip_fts_special(s.drop_last()).push(s.last())
    }
}

/// The words of `s` joined by single spaces.
pub open spec fn spec_normalize(s: Seq<char>) -> Seq<char> {
    join_with(ws_words(s), seq![' '])
}

/// The query FTS5 receives: operator characters removed, then whitespace
/// collapsed to single spaces.
pub open spec fn spec_sanitize_fts(q: Seq<char>) -> Seq<char> {
    spec_normalize(strip_fts_special(q))
}

fn join_words(words: &Vec<Vec<char>>) -> (r: String)
    ensures
        r@ == join_with(views(words@), seq![' ']),
{
    let mut parts: Vec<String> = Vec::new();
    let mut i: usize = 0;
    while i < words.len()
        invariant
            i <= words.len(),
            string_views(parts@) == views(words@).take(i as int),
        decreases words.len() - i,
    {
        let ghost old_p = parts@;
        parts.push(from_chars(&words[i]));
        assert(string_views(parts@) =~= string_views(old_p).push(views(words@)[i as int]));
        assert(views(words@).take(i + 1) =~= views(words@).take(i as int).push(views(words@)[i as int]));
        i = i + 1;
    }
    assert(views(words@).take(words.len() as int) =~= views(words@));
    let sp = " ";
    proof {
        reveal_strlit(" ");
    }
    let r = join_strings(&parts, sp);
    assert(sp@ == seq![' ']);
    r
}

/// Normalizes content for comparison: trims it and collapses each run of
/// whitespace to a single space.
pub fn normalize_content(s: &str) -> (r: String)
    ensures
        r@ == spec_normalize(s@),
{
    let sc = to_chars(s);
    let words = split_whitespace_chars(&sc);
    join_words(&words)
}

/// Sanitizes a query for FTS5 `MATCH`: removes the characters FTS5 reads as
/// operators and collapses whitespace.
pub fn sanitize_fts_query(query: &str) -> (r: String)
    ensures
        r@ == spec_sanitize_fts(query@),
{
    let qc = to_chars(query);
    let mut kept: Vec<char> = Vec::new();
    let mut i: usize = 0;
    while i < qc.len()
        invariant
            i <= qc.len(),
            qc@ == query@,
            kept@ == strip_fts_special(qc@.take(i as int)),
        decreases qc.len() - i,
    {
        assert(qc@.take(i + 1).drop_last() == qc@.take(i as int));
        let c = qc[i];
        if !(c == '?' || c == '*' || c == '(' || c == ')' || c == '"' || c == '+' || c == '-' || c
            == '^' || c == '{' || c == '}' || c == '~') {
            kept.push(c);
        }
        i = i + 1;
    }
    assert(qc@.take(qc.len() as int) == qc@);
    let words = split_whitespace_chars(&kept);
    join_words(&words)
}

/// No character of `s` is an FTS5 operator.
pub open spec fn no_fts_special(s: Seq<char>) -> bool {
    forall|k: int| 0 <= k < s.len() ==> !#[trigger] is_fts_special(s[k])
}

proof fn lemma_strip_no_special(s: Seq<char>)
    ensures
        no_fts_special(strip_fts_special(s)),
    decreases s.len(),
{
    if s.len() > 0 {
        lemma_strip_no_special(s.drop_last());
        let p = strip_fts_special(s.drop_last());
        if !is_fts_special(s.last()) {
            assert forall|k: int| 0 <= k < p.push(s.last()).len() implies !#[trigger] is_fts_special(p.push(s.last())[k]) by {
                if k < p.len() {
                    assert(p.push(s.last())[k] == p[k]);
                }
            }
        }
    }
}

proof fn lemma_split_ws_no_special(s: Seq<char>)
    requires
        no_fts_special(s),
    ensures
        forall|i: int| 0 <= i < split_ws(s).0.len() ==> no_fts_special(#[trigger] split_ws(s).0[i]),
        no_fts_special(split_ws(s).1),
    decreases s.len(),
{
    if s.len() > 0 {
        assert(no_fts_special(s.drop_last())) by {
            assert forall|k: int| 0 <= k < s.drop_last().len() implies !#[trigger] is_fts_special(s.drop_last()[k]) by {
                assert(s.drop_last()[k] == s[k]);
            }
        }
        lemma_split_ws_no_special(s.drop_last());
        let (done, cur) = split_ws(s.drop_last());
        assert(!is_fts_special(s[s.len() - 1]));
        let c = s.last();
        assert forall|k: int| 0 <= k < cur.push(c).len() implies !#[trigger] is_fts_special(cur.push(c)[k]) by {
            if k < cur.len() {
                assert(cur.push(c)[k] == cur[k]);
            }
        }
        assert forall|i: int| 0 <= i < done.push(cur).len() implies no_fts_special(#[trigger] done.push(cur)[i]) by {
            if i < done.len() {
                assert(done.push(cur)[i] == done[i]);
            }
        }
    }
}

proof fn lemma_join_no_special(ls: Seq<Seq<char>>)
    requires
        forall|i: int| 0 <= i < ls.len() ==> no_fts_special(#[trigger] ls[i]),
    ensures
        no_fts_special(join_with(ls, seq![' '])),
    decreases ls.len(),
{
    if ls.len() == 1 {
        assert(no_fts_special(ls[0]));
    } else if ls.len() > 1 {
        assert forall|i: int| 0 <= i < ls.drop_last().len() implies no_fts_special(#[trigger] ls.drop_last()[i]) by {
            assert(ls.drop_last()[i] == ls[i]);
        }
        lemma_join_no_special(ls.drop_last());
        let a = join_with(ls.drop_last(), seq![' ']);
        let b = ls.last();
        assert(no_fts_special(b)) by {
            assert(b == ls[ls.len() - 1]);
        }
        let j = a + seq![' '] + b;
        assert forall|k: int| 0 <= k < j.len() implies !#[trigger] is_fts_special(j[k]) by {
            if k < a.len() {
                assert(j[k] == a[k]);
            } else if k == a.len() {
                assert(j[k] == ' ');
            } else {
                assert(j[k] == b[k - a.len() - 1]);
            }
        }
    }
}

/// The sanitized query holds no character that FTS5 reads as an operator.
pub proof fn law_sanitize_fts(q: Seq<char>)
    ensures
        no_fts_special(spec_sanitize_fts(q)),
{
    let s = strip_fts_special(q);
    lemma_strip_no_special(q);
    lemma_split_ws_no_special(s);
    let (done, cur) = split_ws(s);
    let ws = ws_words(s);
    assert forall|i: int| 0 <= i < ws.len() implies no_fts_special(#[trigger] ws[i]) by {
        if cur.len() > 0 && i == done.len() {
            assert(ws[i] == cur);
        } else {
            assert(ws[i] == done[i]);
        }
    }
    lemma_join_no_special(ws);
}

// ─── Filename matching ───────────────────────────────────────────────────────

/// The half-points one query word earns against a file stem: 2 for an exact
/// match, 1 when the stem contains it, else 0.
pub open spec fn word_points(stem: Seq<char>, word: Seq<char>) -> nat {
    if stem == word {
        2
    } else if contains_seq(stem, word) {
        1
    } else {
        0
    }
}

/// The half-points of all the words, summed.
pub open spec fn sum_points(stem: Seq<char>, words: Seq<Seq<char>>) -> nat
    decreases words.len(),
{
    if words.len() == 0 {
        0
    } else {
        sum_points(stem, words.drop_last()) + word_points(stem, words.last())
    }
}

/// The lowercased query words.
pub open spec fn lower_words(query: Seq<char>) -> Seq<Seq<char>> {
    Seq::new(ws_words(query).len(), |i: int| spec_lowercase(ws_words(query)[i]))
}

/// The lowercased file stem of a path (empty when it has none).
pub open spec fn lower_stem(path: Seq<char>) -> Seq<char> {
    spec_lowercase(
        match spec_file_stem(path) {
            Some(s) => s,
            None => Seq::empty(),
        },
    )
}

/// A path's filename score in half-points: 2 per query word equal to the
/// lowercased stem, 1 per word the stem contains, capped at 2 (a full
/// point).
pub open spec fn spec_filename_points(path: Seq<char>, query: Seq<char>) -> nat {
    let s = sum_points(lower_stem(path), lower_words(query));
    if s < 2 {
        s
    } else {
        2
    }
}

/// The lowercased words of a query.
pub fn query_words_lower(query: &str) -> (r: Vec<Vec<char>>)
    ensures
        views(r@) == lower_words(query@),
{
    let qc = to_chars(query);
    let words = split_whitespace_chars(&qc);
    let mut out: Vec<Vec<char>> = Vec::new();
    let mut i: usize = 0;
    while i < words.len()
        invariant
            i <= words.len(),
            views(words@) == ws_words(query@),
            views(out@) == lower_words(query@).take(i as int),
        decreases words.len() - i,
    {
        let w = from_chars(&words[i]);
        let l = to_lowercase(w.as_str());
        let ghost old_o = out@;
        out.push(to_chars(l.as_str()));
        assert(views(out@) =~= views(old_o).push(lower_words(query@)[i as int]));
        assert(lower_words(query@).take(i + 1) =~= lower_words(query@).take(i as int).push(lower_words(query@)[i as int]));
        i = i + 1;
    }
    assert(lower_words(query@).take(words.len() as int) =~= lower_words(query@));
    out
}

/// The filename score of `path` for the lowercased query words, in
/// half-points (2 is a full point): exact stem matches earn 2, stems that
/// contain a word earn 1, and the sum is capped at 2.
pub fn filename_points(path: &str, words: &Vec<Vec<char>>) -> (r: u32)
    ensures
        r == ({
            let s = sum_points(lower_stem(path@), views(words@));
            if s < 2 { s } else { 2 }
        }),
{
    let stem = match path_file_stem(path) {
        Some(s) => to_lowercase(s.as_str()),
        None => to_lowercase(""),
    };
    proof {
        reveal_strlit("");
        assert(""@ =~= Seq::<char>::empty());
    }
    let sc = to_chars(stem.as_str());
    let mut total: u32 = 0;
    let mut i: usize = 0;
    while i < words.len()
        invariant
            i <= words.len(),
            sc@ == lower_stem(path@),
            total == ({
                let s = sum_points(sc@, views(words@).take(i as int));
                if s < 2 { s } else { 2 }
            }),
        decreases words.len() - i,
    {
        assert(views(words@).take(i + 1).drop_last() == views(words@).take(i as int));
        let pts: u32 = if chars_eq(&sc, &words[i]) {
            2
        } else if contains_vec(&sc, &words[i]) {
            1
        } else {
            0
        };
        total = if total + pts < 2 { total + pts } else { 2 };
        i = i + 1;
    }
    assert(views(words@).take(words.len() as int) == views(words@));
    total
}

/// The paths with a positive filename score, full points first, then half
/// points, each group in the order given.
pub open spec fn spec_filename_matches(paths: Seq<Seq<char>>, query: Seq<char>, points: nat) -> Seq<(Seq<char>, nat)>
    decreases paths.len(),
{
    if paths.len() == 0 {
        Seq::empty()
    } else {
        let prev = spec_filename_matches(paths.drop_last(), query, points);
        let p = paths.last();
        if spec_filename_points(p, query) == points {
            prev.push((p, points))
        } else {
            prev
        }
    }
}

/// The views of (path, points) pairs.
pub open spec fn scored_views(v: Seq<(String, u32)>) -> Seq<(Seq<char>, nat)> {
    Seq::new(v.len(), |i: int| (v[i].0@, v[i].1 as nat))
}

/// Filename search over the given document paths: each path scored in
/// half-points against the query words; those that score come out full
/// points first, then half points, each group in the given order.
pub fn filename_matches(paths: &Vec<String>, query: &str) -> (r: Vec<(String, u32)>)
    ensures
        scored_views(r@) == spec_filename_matches(string_views(paths@), query@, 2)
            + spec_filename_matches(string_views(paths@), query@, 1),
{
    let ghost ps = string_views(paths@);
    let words = query_words_lower(query);
    let mut full: Vec<(String, u32)> = Vec::new();
    let mut half: Vec<(String, u32)> = Vec::new();
    let mut i: usize = 0;
    while i < paths.len()
        invariant
            i <= paths.len(),
            ps == string_views(paths@),
            views(words@) == lower_words(query@),
            scored_views(full@) == spec_filename_matches(ps.take(i as int), query@, 2),
            scored_views(half@) == spec_filename_matches(ps.take(i as int), query@, 1),
        decreases paths.len() - i,
    {
        assert(ps.take(i + 1).drop_last() == ps.take(i as int));
        let pts = filename_points(paths[i].as_str(), &words);
        let ghost old_f = full@;
        let ghost old_h = half@;
        if pts == 2 {
            full.push((paths[i].clone(), 2));
            assert(scored_views(full@) =~= scored_views(old_f).push((ps[i as int], 2nat)));
        } else if pts == 1 {
            half.push((paths[i].clone(), 1));
            assert(scored_views(half@) =~= scored_views(old_h).push((ps[i as int], 1nat)));
        }
        i = i + 1;
    }
    assert(ps.take(paths.len() as int) == ps);
    let ghost old_f = full@;
    let mut k: usize = 0;
    while k < half.len()
        invariant
            k <= half.len(),
            scored_views(full@) == scored_views(old_f) + scored_views(half@).take(k as int),
        decreases half.len() - k,
    {
        let ghost before = full@;
        full.push((half[k].0.clone(), half[k].1));
        assert(scored_views(full@) =~= scored_views(before).push(scored_views(half@)[k as int]));
        assert(scored_views(half@).take(k + 1) =~= scored_views(half@).take(k as int).push(scored_views(half@)[k as int]));
        assert(scored_views(full@) =~= scored_views(old_f) + scored_views(half@).take(k + 1));
        k = k + 1;
    }
    assert(scored_views(half@).take(half.len() as int) =~= scored_views(half@));
    full
}

/// The paths of some scored entries.
pub open spec fn scored_paths(v: Seq<(Seq<char>, nat)>) -> Seq<Seq<char>> {
    Seq::new(v.len(), |i: int| v[i].0)
}

/// Whether `path` scores exactly `points` half-points for `query`.
pub open spec fn scores(query: Seq<char>, points: nat) -> spec_fn(Seq<char>) -> bool {
    |p: Seq<char>| spec_filename_points(p, query) == points
}

/// Whether `path` scores at all for `query`.
pub open spec fn scores_any(query: Seq<char>) -> spec_fn(Seq<char>) -> bool {
    |p: Seq<char>| spec_filename_points(p, query) > 0
}

proof fn lemma_filename_group(paths: Seq<Seq<char>>, query: Seq<char>, points: nat)
    ensures
        ({
            let g = spec_filename_matches(paths, query, points);
            &&& forall|k: int| 0 <= k < g.len() ==> #[trigger] g[k].1 == points
                && spec_filename_points(g[k].0, query) == points
            &&& scored_paths(g) == paths.filter(scores(query, points))
        }),
    decreases paths.len(),
{
    reveal(Seq::filter);
    if paths.len() > 0 {
        lemma_filename_group(paths.drop_last(), query, points);
        let prev = spec_filename_matches(paths.drop_last(), query, points);
        let g = spec_filename_matches(paths, query, points);
        assert forall|k: int| 0 <= k < g.len() implies #[trigger] g[k].1 == points
            && spec_filename_points(g[k].0, query) == points by {
            if k < prev.len() {
                assert(g[k] == prev[k]);
            }
        }
        assert(scored_paths(g) =~= paths.filter(scores(query, points)));
    } else {
        assert(scored_paths(spec_filename_matches(paths, query, points)) =~= paths.filter(scores(query, points)));
    }
}

proof fn lemma_filename_split(paths: Seq<Seq<char>>, query: Seq<char>)
    ensures
        paths.filter(scores_any(query)).to_multiset() == paths.filter(scores(query, 2)).to_multiset().add(
            paths.filter(scores(query, 1)).to_multiset(),
        ),
    decreases paths.len(),
{
    broadcast use vstd::seq_lib::group_to_multiset_ensures;
    reveal(Seq::filter);
    if paths.len() == 0 {
        assert(paths.filter(scores_any(query)).to_multiset() =~= vstd::multiset::Multiset::empty());
        assert(paths.filter(scores(query, 2)).to_multiset() =~= vstd::multiset::Multiset::empty());
        assert(paths.filter(scores(query, 1)).to_multiset() =~= vstd::multiset::Multiset::empty());
    } else {
        lemma_filename_split(paths.drop_last(), query);
        let x = paths.last();
        assert(spec_filename_points(x, query) <= 2);
        let a = paths.drop_last().filter(scores_any(query)).to_multiset();
        let b = paths.drop_last().filter(scores(query, 2)).to_multiset();
        let c = paths.drop_last().filter(scores(query, 1)).to_multiset();
        if spec_filename_points(x, query) == 2 {
            assert(a.insert(x) =~= b.insert(x).add(c));
        } else if spec_filename_points(x, query) == 1 {
            assert(a.insert(x) =~= b.add(c.insert(x)));
        }
    }
}

/// Filename search ranks every scoring path exactly once: the entries are
/// the paths with a positive score, as often as they occur, each with its
/// own score of one or two half-points, ordered by score from high to low,
/// and in the given order within a score.
pub proof fn law_filename_matches(paths: Seq<Seq<char>>, query: Seq<char>)
    ensures
        ({
            let out = spec_filename_matches(paths, query, 2) + spec_filename_matches(paths, query, 1);
            &&& forall|k: int| 0 <= k < out.len() ==> #[trigger] out[k].1 == spec_filename_points(out[k].0, query)
                && 1 <= out[k].1 <= 2
            &&& forall|j: int, k: int| 0 <= j < k < out.len() ==> #[trigger] out[j].1 >= #[trigger] out[k].1
            &&& scored_paths(out) == paths.filter(scores(query, 2)) + paths.filter(scores(query, 1))
            &&& scored_paths(out).to_multiset() == paths.filter(scores_any(query)).to_multiset()
        }),
{
    let f = spec_filename_matches(paths, query, 2);
    let h = spec_filename_matches(paths, query, 1);
    let out = f + h;
    lemma_filename_group(paths, query, 2);
    lemma_filename_group(paths, query, 1);
    assert forall|k: int| 0 <= k < out.len() implies #[trigger] out[k].1 == spec_filename_points(out[k].0, query)
        && 1 <= out[k].1 <= 2 by {
        if k < f.len() {
            assert(out[k] == f[k]);
        } else {
            assert(out[k] == h[k - f.len()]);
        }
    }
    assert forall|j: int, k: int| 0 <= j < k < out.len() implies #[trigger] out[j].1 >= #[trigger] out[k].1 by {
        if j < f.len() {
            assert(out[j] == f[j]);
        } else {
            assert(out[j] == h[j - f.len()]);
        }
        if k < f.len() {
            assert(out[k] == f[k]);
        } else {
            assert(out[k] == h[k - f.len()]);
        }
    }
    assert(scored_paths(out) =~= scored_paths(f) + scored_paths(h));
    lemma_filename_split(paths, query);
    vstd::seq_lib::lemma_multiset_commutative(paths.filter(scores(query, 2)), paths.filter(scores(query, 1)));
}

// ─── What sanitising and filename scoring keep ──────────────────────────────

/// Only the FTS5 operator characters `? * ( ) " + - ^ { } ~` are removed:
/// appending any other character to a query appends it to the stripped
/// query, and appending an operator character changes nothing.
pub proof fn law_strip_fts_chars(s: Seq<char>, c: char)
    ensures
        !(c == '?' || c == '*' || c == '(' || c == ')' || c == '"' || c == '+' || c == '-' || c == '^'
            || c == '{' || c == '}' || c == '~') ==> strip_fts_special(s.push(c)) == strip_fts_special(s).push(c),
        (c == '?' || c == '*' || c == '(' || c == ')' || c == '"' || c == '+' || c == '-' || c == '^'
            || c == '{' || c == '}' || c == '~') ==> strip_fts_special(s.push(c)) == strip_fts_special(s),
{
    assert(s.push(c).drop_last() =~= s);
}

/// A query without operator characters keeps every character.
proof fn lemma_strip_plain(q: Seq<char>)
    requires
        forall|i: int| 0 <= i < q.len() ==> !is_fts_special(#[trigger] q[i]),
    ensures
        strip_fts_special(q) == q,
    decreases q.len(),
{
    if q.len() > 0 {
        let p = q.drop_last();
        assert forall|i: int| 0 <= i < p.len() implies !is_fts_special(#[trigger] p[i]) by {
            assert(p[i] == q[i]);
        }
        lemma_strip_plain(p);
        assert(q =~= p.push(q.last()));
    }
}

/// A query free of the FTS5 operator characters sanitises to its words
/// joined by single spaces: digits, letters and every other character stay.
pub proof fn law_sanitize_plain_query(q: Seq<char>)
    requires
        forall|i: int| 0 <= i < q.len() ==> !(q[i] == '?' || q[i] == '*' || q[i] == '(' || q[i] == ')'
            || q[i] == '"' || q[i] == '+' || q[i] == '-' || q[i] == '^' || q[i] == '{' || q[i] == '}'
            || q[i] == '~'),
    ensures
        spec_sanitize_fts(q) == join_with(ws_words(q), seq![' ']),
{
    assert forall|i: int| 0 <= i < q.len() implies !is_fts_special(#[trigger] q[i]) by {}
    lemma_strip_plain(q);
}

/// A query word earns a path points exactly when the path's stem contains
/// it, a full point (two half-points) exactly when it is the whole stem.
pub proof fn law_word_points(stem: Seq<char>, word: Seq<char>)
    ensures
        word_points(stem, word) > 0 <==> contains_seq(stem, word),
        word_points(stem, word) == 2 <==> stem == word,
        word_points(stem, word) <= 2,
{
    if stem == word {
        assert(stem.subrange(0int, 0int + word.len()) =~= word);
    }
}

proof fn lemma_sum_points_pos(stem: Seq<char>, words: Seq<Seq<char>>)
    ensures
        sum_points(stem, words) > 0 <==> exists|i: int| 0 <= i < words.len() && contains_seq(stem, #[trigger] words[i]),
    decreases words.len(),
{
    if words.len() > 0 {
        let p = words.drop_last();
        lemma_sum_points_pos(stem, p);
        law_word_points(stem, words.last());
        if sum_points(stem, p) > 0 {
            let i = choose|i: int| 0 <= i < p.len() && contains_seq(stem, #[trigger] p[i]);
            assert(words[i] == p[i]);
        }
        if exists|i: int| 0 <= i < words.len() && contains_seq(stem, #[trigger] words[i]) {
            let i = choose|i: int| 0 <= i < words.len() && contains_seq(stem, #[trigger] words[i]);
            if i < p.len() {
                assert(p[i] == words[i]);
            }
        }
    }
}

/// A path scores for a query exactly when its lowercased stem contains some
/// lowercased word of the query; a word that merely contains the stem earns
/// nothing.
pub proof fn law_filename_points(path: Seq<char>, query: Seq<char>)
    ensures
        spec_filename_points(path, query) > 0 <==> exists|i: int|
            0 <= i < lower_words(query).len() && contains_seq(lower_stem(path), #[trigger] lower_words(query)[i]),
{
    lemma_sum_points_pos(lower_stem(path), lower_words(query));
}

// ─── The graph query ─────────────────────────────────────────────────────────

/// The words of `ws` without repeats, each where it first occurs.
pub open spec fn distinct_words(ws: Seq<Seq<char>>) -> Seq<Seq<char>>
    decreases ws.len(),
{
    if ws.len() == 0 {
        Seq::empty()
    } else {
        let prev = distinct_words(ws.drop_last());
        if prev.contains(ws.last()) {
            prev
        } else {
            prev.push(ws.last())
        }
    }
}

/// Whether `w` is one of `ws`.
fn has_word(ws: &Vec<Vec<char>>, w: &Vec<char>) -> (r: bool)
    ensures
        r == views(ws@).contains(w@),
{
    let mut i: usize = 0;
    while i < ws.len()
        invariant
            i <= ws.len(),
            forall|j: int| 0 <= j < i ==> #[trigger] views(ws@)[j] != w@,
        decreases ws.len() - i,
    {
        if chars_eq(&ws[i], w) {
            assert(views(ws@)[i as int] == w@);
            return true;
        }
        i = i + 1;
    }
    false
}

/// The query the graph engine searches once a query was corrected: the
/// words of the query, then those of its correction, each word once, in
/// order of first occurrence, separated by single spaces.
pub fn graph_query_text(query: &str, corrected: &str) -> (r: String)
    ensures
        r@ == join_with(distinct_words(ws_words(query@) + ws_words(corrected@)), " "@),
{
    let qc = to_chars(query);
    let cc = to_chars(corrected);
    let mut all = split_whitespace_chars(&qc);
    let mut more = split_whitespace_chars(&cc);
    let ghost ws = ws_words(query@) + ws_words(corrected@);
    let ghost a0 = views(all@);
    let ghost m0 = views(more@);
    all.append(&mut more);
    assert(views(all@) =~= a0 + m0);
    let mut seen: Vec<Vec<char>> = Vec::new();
    let mut i: usize = 0;
    while i < all.len()
        invariant
            i <= all.len(),
            views(all@) == ws,
            views(seen@) == distinct_words(ws.take(i as int)),
        decreases all.len() - i,
    {
        assert(ws.take(i + 1).drop_last() =~= ws.take(i as int));
        assert(ws.take(i + 1).last() == ws[i as int]);
        let w = all[i].clone();
        if !has_word(&seen, &w) {
            let ghost before = views(seen@);
            seen.push(w);
            assert(views(seen@) =~= before.push(ws[i as int]));
        }
        i = i + 1;
    }
    assert(ws.take(all.len() as int) =~= ws);
    let mut parts: Vec<String> = Vec::new();
    let mut k: usize = 0;
    while k < seen.len()
        invariant
            k <= seen.len(),
            string_views(parts@) == views(seen@).take(k as int),
        decreases seen.len() - k,
    {
        let ghost before = string_views(parts@);
        parts.push(from_chars(&seen[k]));
        assert(string_views(parts@) =~= before.push(views(seen@)[k as int]));
        assert(views(seen@).take(k + 1) =~= views(seen@).take(k as int).push(views(seen@)[k as int]));
        k = k + 1;
    }
    assert(views(seen@).take(seen.len() as int) =~= views(seen@));
    join_strings(&parts, " ")
}

// ─── Deduplication ───────────────────────────────────────────────────────────

/// Keeps each path's first occurrence: entry `i` is kept when no earlier
/// entry has the same path.
pub fn keep_first_paths(paths: &Vec<String>) -> (r: Vec<bool>)
    ensures
        r@.len() == paths@.len(),
        forall|i: int| 0 <= i < paths@.len() ==> #[trigger] r@[i] == (forall|j: int| 0 <= j < i ==> paths@[j]@ != paths@[i]@),
{
    let mut keep: Vec<bool> = Vec::new();
    let mut i: usize = 0;
    while i < paths.len()
        invariant
            i <= paths.len(),
            keep@.len() == i,
            forall|m: int| 0 <= m < i ==> #[trigger] keep@[m] == (forall|j: int| 0 <= j < m ==> paths@[j]@ != paths@[m]@),
        decreases paths.len() - i,
    {
        let pc = to_chars(paths[i].as_str());
        let mut first = true;
        let mut j: usize = 0;
        while j < i
            invariant
                j <= i < paths.len(),
                pc@ == paths@[i as int]@,
                first == (forall|m: int| 0 <= m < j ==> paths@[m]@ != paths@[i as int]@),
            decreases i - j,
        {
            let qc = to_chars(paths[j].as_str());
            if chars_eq(&qc, &pc) {
                first = false;
            }
            j = j + 1;
        }
        keep.push(first);
        i = i + 1;
    }
    keep
}

/// Two result keys name the same item: the same chunk when both have a
/// chunk id, else the same path when neither has.
pub open spec fn same_key(a: (Option<i64>, Seq<char>), b: (Option<i64>, Seq<char>)) -> bool {
    match (a.0, b.0) {
        (Some(x), Some(y)) => x == y,
        (None, None) => a.1 == b.1,
        _ => false,
    }
}

/// The views of (chunk id, path) keys.
pub open spec fn key_views(v: Seq<(Option<i64>, String)>) -> Seq<(Option<i64>, Seq<char>)> {
    Seq::new(v.len(), |i: int| (v[i].0, v[i].1@))
}

/// Keeps each item's first occurrence, items keyed by chunk id, or by path
/// when there is no chunk id.
pub fn keep_first_chunks(keys: &Vec<(Option<i64>, String)>) -> (r: Vec<bool>)
    ensures
        r@.len() == keys@.len(),
        forall|i: int| 0 <= i < keys@.len() ==> #[trigger] r@[i] == (forall|j: int| 0 <= j < i ==> !same_key(key_views(keys@)[j], key_views(keys@)[i])),
{
    let ghost kv = key_views(keys@);
    let mut keep: Vec<bool> = Vec::new();
    let mut i: usize = 0;
    while i < keys.len()
        invariant
            i <= keys.len(),
            kv == key_views(keys@),
            keep@.len() == i,
            forall|m: int| 0 <= m < i ==> #[trigger] keep@[m] == (forall|j: int| 0 <= j < m ==> !same_key(kv[j], kv[m])),
        decreases keys.len() - i,
    {
        let pc = to_chars(keys[i].1.as_str());
        let mut first = true;
        let mut j: usize = 0;
        while j < i
            invariant
                j <= i < keys.len(),
                kv == key_views(keys@),
                pc@ == kv[i as int].1,
                first == (forall|m: int| 0 <= m < j ==> !same_key(kv[m], kv[i as int])),
            decreases i - j,
        {
            let same = match (keys[j].0, keys[i].0) {
                (Some(x), Some(y)) => x == y,
                (None, None) => {
                    let qc = to_chars(keys[j].1.as_str());
                    chars_eq(&qc, &pc)
                },
                _ => false,
            };
            assert(same == same_key(kv[j as int], kv[i as int]));
            if same {
                first = false;
            }
            j = j + 1;
        }
        keep.push(first);
        i = i + 1;
    }
    keep
}

} // verus!

//! Local search: scanning the lines of watched files for a query, exactly
//! (case-insensitive substring) or fuzzily, and ranking the hits.  Walking
//! the directories and reading the files happens outside the library.
use vstd::prelude::*;

use nucleo_matcher::pattern::{Atom, AtomKind, CaseMatching, Normalization};

use crate::text::{
    contains_seq, contains_vec, from_chars, lines_of, spec_lowercase, split_lines, to_chars,
    to_lowercase, trim, trim_chars, views, string_of, is_one_of, str_views,
};

verus! {

/// The score a hit ranks by, out of 256 (256 for exact matches).
pub const FULL_SCORE: u32 = 256;

/// A line of a file that matches the query.
#[derive(Debug)]
pub struct LocalMatch {
    /// Path of the file, relative to the watched directory.
    pub file: String,
    /// 1-based line number.
    pub line: u32,
    /// The matched line, trimmed.
    pub matched_text: String,
    /// The score, from 0 to 256 (the normalised score times 256).
    pub score_key: u32,
}

/// A hit by its parts: file, line, text, score.
pub type MatchView = (Seq<char>, u32, Seq<char>, u32);

/// The view of a hit.
pub open spec fn mview(m: LocalMatch) -> MatchView {
    (m.file@, m.line, m.matched_text@, m.score_key)
}

/// The views of hits.
pub open spec fn mviews(s: Seq<LocalMatch>) -> Seq<MatchView> {
    Seq::new(s.len(), |i: int| mview(s[i]))
}

// ─── Ranking ─────────────────────────────────────────────────────────────────

/// The hits with score `k`, in order.
pub open spec fn with_score(s: Seq<MatchView>, k: nat) -> Seq<MatchView>
    decreases s.len(),
{
    if s.len() == 0 {
        Seq::empty()
    } else if s.last().3 == k {
        with_score(s.drop_last(), k).push(s.last())
    } else {
        with_score(s.drop_last(), k)
    }
}

/// The hits with scores `k` down to 0, highest first, each score's hits in
/// order.
pub open spec fn ranked_from(s: Seq<MatchView>, k: nat) -> Seq<MatchView>
    decreases k,
{
    if k == 0 {
        with_score(s, 0)
    } else {
        with_score(s, k) + ranked_from(s, (k - 1) as nat)
    }
}

/// The hits ranked by score, highest first, equal scores in their order
/// (a stable sort by descending score).
pub open spec fn ranked(s: Seq<MatchView>) -> Seq<MatchView> {
    ranked_from(s, 256)
}

fn copy_match(m: &LocalMatch) -> (r: LocalMatch)
    ensures
        mview(r) == mview(*m),
{
    LocalMatch { file: m.file.clone(), line: m.line, matched_text: m.matched_text.clone(), score_key: m.score_key }
}

fn push_with_score(out: &mut Vec<LocalMatch>, s: &Vec<LocalMatch>, k: u32)
    ensures
        mviews(final(out)@) == mviews(old(out)@) + with_score(mviews(s@), k as nat),
{
    let mut i: usize = 0;
    while i < s.len()
        invariant
            i <= s.len(),
            mviews(out@) == mviews(old(out)@) + with_score(mviews(s@).take(i as int), k as nat),
        decreases s.len() - i,
    {
        assert(mviews(s@).take(i + 1).drop_last() == mviews(s@).take(i as int));
        let ghost before = out@;
        if s[i].score_key == k {
            out.push(copy_match(&s[i]));
            assert(mviews(out@) =~= mviews(before).push(mview(s@[i as int])));
        }
        i = i + 1;
    }
    assert(mviews(s@).take(s.len() as int) == mviews(s@));
}

/// Ranks hits by score, highest first, keeping the order of equal scores
/// (scores run from 0 to 256).
pub fn rank_matches(s: &Vec<LocalMatch>) -> (r: Vec<LocalMatch>)
    ensures
        mviews(r@) == ranked(mviews(s@)),
{
    let mut out: Vec<LocalMatch> = Vec::new();
    let mut k: u32 = 256;
    loop
        invariant_except_break
            k <= 256,
            mviews(out@) + ranked_from(mviews(s@), k as nat) == ranked(mviews(s@)),
        ensures
            mviews(out@) == ranked(mviews(s@)),
        decreases k,
    {
        let ghost before = out@;
        push_with_score(&mut out, s, k);
        if k == 0 {
            assert(ranked_from(mviews(s@), 0) == with_score(mviews(s@), 0));
            assert(mviews(out@) =~= mviews(before) + ranked_from(mviews(s@), 0));
            break;
        }
        assert(ranked_from(mviews(s@), k as nat) == with_score(mviews(s@), k as nat) + ranked_from(mviews(s@), (k - 1) as nat));
        assert(mviews(out@) + ranked_from(mviews(s@), (k - 1) as nat) =~= mviews(before) + ranked_from(mviews(s@), k as nat));
        k = k - 1;
    }
    out
}

fn truncate_matches(v: &mut Vec<LocalMatch>, n: usize)
    ensures
        mviews(final(v)@) == if n < old(v)@.len() { mviews(old(v)@).take(n as int) } else { mviews(old(v)@) },
{
    let ghost o = mviews(v@);
    v.truncate(n);
    assert(mviews(v@) =~= if n < o.len() { o.take(n as int) } else { o });
}

// ─── Scanning lines ──────────────────────────────────────────────────────────

/// What the fuzzy matcher scores for the query against a line (`None`
/// when the line does not match).
pub uninterp spec fn spec_fuzzy_score(query: Seq<char>, haystack: Seq<char>) -> Option<u16>;

/// `nucleo_matcher`'s fuzzy score of the query (case ignored, smart
/// normalisation) against a line.
#[verifier::external_body]
fn fuzzy_score(query: &str, haystack: &str) -> (r: Option<u16>)
    ensures
        r == spec_fuzzy_score(query@, haystack@),
{
    let atom = Atom::new(query, CaseMatching::Ignore, Normalization::Smart, AtomKind::Fuzzy, false);
    let mut matcher = nucleo_matcher::Matcher::new(nucleo_matcher::Config::DEFAULT);
    let mut buf = Vec::new();
    atom.score(nucleo_matcher::Utf32Str::new(haystack, &mut buf), &mut matcher)
}

/// The score of a line: 256 for an exact (case-insensitive substring)
/// match, the fuzzy score capped at 256 otherwise; `None` for no match.
pub open spec fn line_score(line: Seq<char>, query: Seq<char>, exact: bool) -> Option<u32> {
    if exact {
        if contains_seq(spec_lowercase(line), spec_lowercase(query)) {
            Some(256u32)
        } else {
            None
        }
    } else {
        match spec_fuzzy_score(query, line) {
            Some(s) => Some(if s < 256 { s as u32 } else { 256u32 }),
            None => None,
        }
    }
}

/// One line of a file scanned: a non-blank line that matches joins the
/// hits; whenever the hits reach `20 * limit`, they are ranked and cut to
/// the best `5 * limit`.
pub open spec fn scan_step(acc: Seq<MatchView>, file: Seq<char>, idx: nat, raw: Seq<char>, query: Seq<char>, exact: bool, limit: nat) -> Seq<MatchView> {
    let t = trim(raw);
    if t.len() == 0 {
        acc
    } else {
        let acc2 = match line_score(t, query, exact) {
            Some(k) => acc.push((file, (idx + 1) as u32, t, k)),
            None => acc,
        };
        if acc2.len() >= 20 * limit {
            let r = ranked(acc2);
            if 5 * limit < r.len() {
                r.take(5 * limit as int)
            } else {
                r
            }
        } else {
            acc2
        }
    }
}

/// The hits after scanning the first `k` lines.
pub open spec fn scan_lines(acc: Seq<MatchView>, file: Seq<char>, lines: Seq<Seq<char>>, k: nat, query: Seq<char>, exact: bool, limit: nat) -> Seq<MatchView>
    decreases k,
{
    if k == 0 {
        acc
    } else {
        scan_step(scan_lines(acc, file, lines, (k - 1) as nat, query, exact, limit), file, (k - 1) as nat, lines[k - 1], query, exact, limit)
    }
}

/// Scans the lines of one file for the query and adds the hits to `acc`
/// (the hits of the files scanned before): each non-blank line, trimmed,
/// is scored exactly (case-insensitive substring, score 256) or fuzzily
/// (capped at 256); whenever the hits reach `20 * limit` they are ranked
/// and cut to the best `5 * limit`.
pub fn scan_file(acc: &mut Vec<LocalMatch>, file: &str, content: &str, query: &str, exact: bool, limit: usize)
    requires
        20 * limit <= usize::MAX,
    ensures
        mviews(final(acc)@) == scan_lines(mviews(old(acc)@), file@, lines_of(content@), lines_of(content@).len(), query@, exact, limit as nat),
{
    let cc = to_chars(content);
    let lines = split_lines(&cc);
    let ghost ls = lines_of(content@);
    let ql = to_lowercase(query);
    let qlc = to_chars(ql.as_str());
    let ghost start = mviews(acc@);
    let mut i: usize = 0;
    while i < lines.len()
        invariant
            i <= lines.len(),
            views(lines@) == ls,
            qlc@ == spec_lowercase(query@),
            20 * limit <= usize::MAX,
            mviews(acc@) == scan_lines(start, file@, ls, i as nat, query@, exact, limit as nat),
        decreases lines.len() - i,
    {
        assert(ls[i as int] == lines@[i as int]@);
        let t = trim_chars(&lines[i]);
        if t.len() > 0 {
            let ts = from_chars(&t);
            let score: Option<u32> = if exact {
                let tl = to_lowercase(ts.as_str());
                let tlc = to_chars(tl.as_str());
                if contains_vec(&tlc, &qlc) { Some(256) } else { None }
            } else {
                match fuzzy_score(query, ts.as_str()) {
                    Some(s) => Some(if s < 256 { s as u32 } else { 256 }),
                    None => None,
                }
            };
            let ghost before = mviews(acc@);
            match score {
                Some(k) => {
                    acc.push(LocalMatch { file: string_of(file), line: (i + 1) as u32, matched_text: ts, score_key: k });
                    assert(mviews(acc@) =~= before.push((file@, (i + 1) as u32, t@, k)));
                },
                None => {},
            }
            if acc.len() >= 20 * limit {
                let mut r = rank_matches(acc);
                truncate_matches(&mut r, 5 * limit);
                *acc = r;
            }
        }
        i = i + 1;
    }
}

/// The hits of all files ranked by score, best first, cut to `limit`.
pub fn top_matches(all: &Vec<LocalMatch>, limit: usize) -> (r: Vec<LocalMatch>)
    ensures
        mviews(r@) == if limit < ranked(mviews(all@)).len() {
            ranked(mviews(all@)).take(limit as int)
        } else {
            ranked(mviews(all@))
        },
{
    let mut r = rank_matches(all);
    truncate_matches(&mut r, limit);
    r
}

/// The file extensions local search reads (the empty one included).
pub open spec fn local_text_extensions() -> Seq<Seq<char>> {
    seq![
        "md"@, "txt"@, "rs"@, "toml"@, "yaml"@, "yml"@, "json"@, "py"@, "js"@, "ts"@, "sh"@, "csv"@,
        "html"@, "css"@, "xml"@, "log"@, "conf"@, "ini"@, ""@,
    ]
}

/// Whether local search reads a file with this (lowercased) extension.
pub fn is_local_text_ext(ext: &str) -> (r: bool)
    ensures
        r == local_text_extensions().contains(ext@),
{
    let exts: [&str; 19] = [
        "md", "txt", "rs", "toml", "yaml", "yml", "json", "py", "js", "ts", "sh", "csv", "html",
        "css", "xml", "log", "conf", "ini", "",
    ];
    assert(str_views(exts@) =~= local_text_extensions());
    let ec = to_chars(ext);
    is_one_of(&ec, &exts)
}

/// The hits with score at most `k`.
pub open spec fn count_at_most(s: Seq<MatchView>, k: nat) -> nat
    decreases s.len(),
{
    if s.len() == 0 {
        0
    } else {
        count_at_most(s.drop_last(), k) + if s.last().3 <= k { 1nat } else { 0nat }
    }
}

proof fn lemma_with_score_elems(s: Seq<MatchView>, k: nat)
    ensures
        forall|i: int| 0 <= i < with_score(s, k).len() ==> #[trigger] with_score(s, k)[i].3 == k,
    decreases s.len(),
{
    if s.len() > 0 {
        lemma_with_score_elems(s.drop_last(), k);
        let w = with_score(s.drop_last(), k);
        if s.last().3 == k {
            assert forall|i: int| 0 <= i < w.push(s.last()).len() implies #[trigger] w.push(s.last())[i].3 == k by {
                if i < w.len() {
                    assert(w.push(s.last())[i] == w[i]);
                }
            }
        }
    }
}

proof fn lemma_count_split(s: Seq<MatchView>, k: nat)
    requires
        k > 0,
    ensures
        count_at_most(s, k) == with_score(s, k).len() + count_at_most(s, (k - 1) as nat),
    decreases s.len(),
{
    if s.len() > 0 {
        lemma_count_split(s.drop_last(), k);
    }
}

proof fn lemma_ranked_from(s: Seq<MatchView>, k: nat)
    ensures
        ranked_from(s, k).len() == count_at_most(s, k),
        forall|i: int| 0 <= i < ranked_from(s, k).len() ==> #[trigger] ranked_from(s, k)[i].3 <= k,
        forall|i: int, j: int| 0 <= i < j < ranked_from(s, k).len() ==> ranked_from(s, k)[i].3 >= ranked_from(s, k)[j].3,
    decreases k,
{
    lemma_with_score_elems(s, k);
    if k == 0 {
        lemma_count_zero(s);
    } else {
        lemma_ranked_from(s, (k - 1) as nat);
        lemma_count_split(s, k);
        let a = with_score(s, k);
        let b = ranked_from(s, (k - 1) as nat);
        assert forall|i: int| 0 <= i < (a + b).len() implies #[trigger] (a + b)[i].3 <= k by {
            if i >= a.len() {
                assert((a + b)[i] == b[i - a.len()]);
            }
        }
        assert forall|i: int, j: int| 0 <= i < j < (a + b).len() implies (a + b)[i].3 >= (a + b)[j].3 by {
            if j < a.len() {
            } else if i < a.len() {
                assert((a + b)[j] == b[j - a.len()]);
            } else {
                assert((a + b)[i] == b[i - a.len()]);
                assert((a + b)[j] == b[j - a.len()]);
            }
        }
    }
}

proof fn lemma_count_zero(s: Seq<MatchView>)
    ensures
        count_at_most(s, 0) == with_score(s, 0).len(),
    decreases s.len(),
{
    if s.len() > 0 {
        lemma_count_zero(s.drop_last());
    }
}

proof fn lemma_count_all(s: Seq<MatchView>, k: nat)
    requires
        forall|i: int| 0 <= i < s.len() ==> #[trigger] s[i].3 <= k,
    ensures
        count_at_most(s, k) == s.len(),
    decreases s.len(),
{
    if s.len() > 0 {
        lemma_count_all(s.drop_last(), k);
        assert(s.last().3 <= k);
    }
}

/// Ranking orders hits by descending score; when every score is at most
/// 256 (as scanning gives), no hit is lost or added.
pub proof fn law_ranked(s: Seq<MatchView>)
    ensures
        forall|i: int, j: int| 0 <= i < j < ranked(s).len() ==> ranked(s)[i].3 >= ranked(s)[j].3,
        (forall|i: int| 0 <= i < s.len() ==> #[trigger] s[i].3 <= 256) ==> ranked(s).len() == s.len(),
{
    lemma_ranked_from(s, 256);
    if forall|i: int| 0 <= i < s.len() ==> #[trigger] s[i].3 <= 256 {
        lemma_count_all(s, 256);
    }
}

} // verus!

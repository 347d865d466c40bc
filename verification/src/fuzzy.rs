//! Fuzzy query correction: a vocabulary of words from the indexed
//! documents, and per-word correction by Levenshtein distance.
use vstd::prelude::*;

use crate::text::{
    ascii_lower_seq, ascii_lower_vec, byte_len, byte_len_capped, chars_eq, from_chars,
    join_strings, join_with, spec_lowercase, split_whitespace_chars, string_of, string_views,
    to_chars, to_lowercase, views, ws_words,
};

verus! {

// ─── Levenshtein distance ────────────────────────────────────────────────────

pub open spec fn min2(a: int, b: int) -> int {
    if a <= b {
        a
    } else {
        b
    }
}

/// Character-level edit distance (insertions, deletions, substitutions).
pub open spec fn lev(a: Seq<char>, b: Seq<char>) -> nat
    decreases a.len() + b.len(),
{
    if a.len() == 0 {
        b.len()
    } else if b.len() == 0 {
        a.len()
    } else {
        let cost: int = if a.last() == b.last() { 0 } else { 1 };
        min2(
            min2((lev(a.drop_last(), b) + 1) as int, (lev(a, b.drop_last()) + 1) as int),
            lev(a.drop_last(), b.drop_last()) as int + cost,
        ) as nat
    }
}

pub proof fn lemma_lev_bound(a: Seq<char>, b: Seq<char>)
    ensures
        lev(a, b) <= if a.len() >= b.len() { a.len() } else { b.len() },
    decreases a.len() + b.len(),
{
    if a.len() > 0 && b.len() > 0 {
        lemma_lev_bound(a.drop_last(), b.drop_last());
        lemma_lev_bound(a.drop_last(), b);
        lemma_lev_bound(a, b.drop_last());
    }
}

pub open spec fn abs_diff(m: int, n: int) -> int {
    if m >= n {
        m - n
    } else {
        n - m
    }
}

proof fn lemma_lev_len_diff(a: Seq<char>, b: Seq<char>)
    ensures
        lev(a, b) >= abs_diff(a.len() as int, b.len() as int),
    decreases a.len() + b.len(),
{
    if a.len() > 0 && b.len() > 0 {
        lemma_lev_len_diff(a.drop_last(), b);
        lemma_lev_len_diff(a, b.drop_last());
        lemma_lev_len_diff(a.drop_last(), b.drop_last());
    }
}

fn min_usize(a: usize, b: usize) -> (r: usize)
    ensures
        r == min2(a as int, b as int),
{
    if a <= b {
        a
    } else {
        b
    }
}

fn levenshtein_chars(a: &Vec<char>, b: &Vec<char>) -> (r: usize)
    ensures
        r == lev(a@, b@),
{
    let m = a.len();
    let n = b.len();
    if m == 0 {
        return n;
    }
    if n == 0 {
        return m;
    }
    let mut prev: Vec<usize> = Vec::new();
    prev.push(0);
    let mut j: usize = 0;
    while j < n
        invariant
            j <= n,
            n == b.len(),
            prev.len() == j + 1,
            forall|k: int| 0 <= k <= j ==> prev@[k] == lev(a@.take(0), b@.take(k)),
        decreases n - j,
    {
        assert(a@.take(0).len() == 0);
        prev.push(j + 1);
        j = j + 1;
    }
    let mut i: usize = 0;
    while i < m
        invariant
            i <= m,
            m == a.len(),
            n == b.len(),
            n >= 1,
            prev.len() == n + 1,
            forall|k: int| 0 <= k <= n ==> prev@[k] == lev(a@.take(i as int), b@.take(k)),
        decreases m - i,
    {
        let i1 = i + 1;
        let mut curr: Vec<usize> = Vec::new();
        curr.push(i1);
        assert(curr@[0] == lev(a@.take(i1 as int), b@.take(0)));
        let mut j: usize = 0;
        while j < n
            invariant
                i < m,
                i1 == i + 1,
                j <= n,
                m == a.len(),
                n == b.len(),
                prev.len() == n + 1,
                curr.len() == j + 1,
                forall|k: int| 0 <= k <= n ==> prev@[k] == lev(a@.take(i as int), b@.take(k)),
                forall|k: int| 0 <= k <= j ==> curr@[k] == lev(a@.take(i1 as int), b@.take(k)),
            decreases n - j,
        {
            let j1 = j + 1;
            let ghost ai = a@.take(i1 as int);
            let ghost bj = b@.take(j1 as int);
            assert(ai.drop_last() == a@.take(i as int));
            assert(bj.drop_last() == b@.take(j as int));
            assert(ai.last() == a@[i as int]);
            assert(bj.last() == b@[j as int]);
            let cost: usize = if a[i] == b[j] { 0 } else { 1 };
            let del = prev[j1].saturating_add(1);
            let ins = curr[j].saturating_add(1);
            let sub = prev[j].saturating_add(cost);
            proof {
                lemma_lev_bound(a@.take(i as int), bj);
                lemma_lev_bound(ai, b@.take(j as int));
                lemma_lev_bound(a@.take(i as int), b@.take(j as int));
            }
            let best = min_usize(min_usize(del, ins), sub);
            curr.push(best);
            j = j1;
        }
        prev = curr;
        i = i1;
    }
    assert(a@.take(m as int) == a@);
    assert(b@.take(n as int) == b@);
    prev[n]
}

/// Levenshtein edit distance between two strings (character-level).
pub fn levenshtein(a: &str, b: &str) -> (r: usize)
    ensures
        r == lev(a@, b@),
{
    let ac = to_chars(a);
    let bc = to_chars(b);
    levenshtein_chars(&ac, &bc)
}

proof fn lemma_lev_refl(a: Seq<char>)
    ensures
        lev(a, a) == 0,
    decreases a.len(),
{
    if a.len() > 0 {
        lemma_lev_refl(a.drop_last());
    }
}

proof fn lemma_lev_symm(a: Seq<char>, b: Seq<char>)
    ensures
        lev(a, b) == lev(b, a),
    decreases a.len() + b.len(),
{
    if a.len() > 0 && b.len() > 0 {
        lemma_lev_symm(a.drop_last(), b);
        lemma_lev_symm(a, b.drop_last());
        lemma_lev_symm(a.drop_last(), b.drop_last());
    }
}

/// The edit distance is zero from a string to itself, symmetric, at least
/// the difference of the lengths and at most the longer length.
pub proof fn law_levenshtein(a: Seq<char>, b: Seq<char>)
    ensures
        lev(a, a) == 0,
        lev(a, b) == lev(b, a),
        lev(a, b) >= abs_diff(a.len() as int, b.len() as int),
        lev(a, b) <= if a.len() >= b.len() { a.len() } else { b.len() },
{
    lemma_lev_refl(a);
    lemma_lev_symm(a, b);
    lemma_lev_len_diff(a, b);
    lemma_lev_bound(a, b);
}

// ─── Word correction ─────────────────────────────────────────────────────────

/// A vocabulary as words (by their characters) with their frequencies.
pub open spec fn vocab_view(vocab: Seq<(String, usize)>) -> Seq<(Seq<char>, usize)> {
    Seq::new(vocab.len(), |i: int| (vocab[i].0@, vocab[i].1))
}

/// The vocabulary holds `word` exactly.
pub open spec fn in_vocab(word: Seq<char>, vocab: Seq<(Seq<char>, usize)>) -> bool {
    exists|i: int| 0 <= i < vocab.len() && #[trigger] vocab[i].0 == word
}

/// The largest edit distance a correction may have: 2 for words of at most
/// 8 bytes, 3 for longer ones.
pub open spec fn max_dist(word: Seq<char>) -> nat {
    if byte_len(word) <= 8 {
        2
    } else {
        3
    }
}

/// The distance from `word` to the `i`-th vocabulary entry.
pub open spec fn entry_dist(word: Seq<char>, vocab: Seq<(Seq<char>, usize)>, i: int) -> nat {
    lev(word, vocab[i].0)
}

/// The scan over the first `k` entries: the index of the best candidate so
/// far (-1 for none), its distance and its frequency.  An entry within
/// `max_dist` replaces the candidate when it is closer, or as close and more
/// frequent.
pub open spec fn best_scan(word: Seq<char>, vocab: Seq<(Seq<char>, usize)>, k: nat) -> (int, int, int)
    decreases k,
{
    if k == 0 {
        (-1, usize::MAX as int, 0)
    } else {
        let prev = best_scan(word, vocab, (k - 1) as nat);
        let d = entry_dist(word, vocab, k - 1) as int;
        let f = vocab[k - 1].1 as int;
        if d > max_dist(word) {
            prev
        } else if d < prev.1 || (d == prev.1 && f > prev.2) {
            (k - 1, d, f)
        } else {
            prev
        }
    }
}

/// The correction of `word`: itself when the vocabulary holds it, else the
/// best candidate of the scan, else itself.
pub open spec fn spec_correct_word(word: Seq<char>, vocab: Seq<(Seq<char>, usize)>) -> Seq<char> {
    if in_vocab(word, vocab) {
        word
    } else {
        let best = best_scan(word, vocab, vocab.len()).0;
        if best >= 0 {
            vocab[best].0
        } else {
            word
        }
    }
}

/// An entry within reach of `word`.
pub open spec fn in_reach(word: Seq<char>, vocab: Seq<(Seq<char>, usize)>, j: int) -> bool {
    entry_dist(word, vocab, j) <= max_dist(word)
}

/// Entry `i` is at least as good a correction as entry `j`: closer, or as
/// close and at least as frequent.
pub open spec fn no_worse(word: Seq<char>, vocab: Seq<(Seq<char>, usize)>, i: int, j: int) -> bool {
    ||| entry_dist(word, vocab, i) < entry_dist(word, vocab, j)
    ||| entry_dist(word, vocab, i) == entry_dist(word, vocab, j) && vocab[i].1 >= vocab[j].1
}

proof fn lemma_best_scan(word: Seq<char>, vocab: Seq<(Seq<char>, usize)>, k: nat)
    requires
        k <= vocab.len(),
    ensures
        ({
            let (b, d, f) = best_scan(word, vocab, k);
            &&& b == -1 <==> (forall|j: int| 0 <= j < k ==> !#[trigger] in_reach(word, vocab, j))
            &&& b == -1 ==> d == usize::MAX
            &&& b >= 0 ==> {
                &&& b < k
                &&& d == entry_dist(word, vocab, b)
                &&& f == vocab[b].1
                &&& in_reach(word, vocab, b)
                &&& forall|j: int| 0 <= j < k && #[trigger] in_reach(word, vocab, j) ==> no_worse(word, vocab, b, j)
            }
            &&& b >= -1
        }),
    decreases k,
{
    if k > 0 {
        let k1 = (k - 1) as nat;
        lemma_best_scan(word, vocab, k1);
        let prev = best_scan(word, vocab, k1);
        let cur = best_scan(word, vocab, k);
        let d = entry_dist(word, vocab, k1 as int) as int;
        let f = vocab[k1 as int].1 as int;
        assert(max_dist(word) <= 3);
        if d > max_dist(word) {
            assert(!in_reach(word, vocab, k1 as int));
            assert(cur == prev);
            assert forall|j: int| 0 <= j < k && #[trigger] in_reach(word, vocab, j) implies j < k1 by {}
        } else if d < prev.1 || (d == prev.1 && f > prev.2) {
            assert(in_reach(word, vocab, k1 as int));
            assert(cur == (k1 as int, d, f));
            assert forall|j: int| 0 <= j < k && #[trigger] in_reach(word, vocab, j) implies no_worse(word, vocab, k1 as int, j) by {
                if j < k1 {
                    assert(prev.0 >= 0);
                    assert(no_worse(word, vocab, prev.0, j));
                }
            }
        } else {
            assert(cur == prev);
            assert(prev.0 >= 0);
            assert forall|j: int| 0 <= j < k && #[trigger] in_reach(word, vocab, j) implies no_worse(word, vocab, prev.0, j) by {
                if j == k1 {
                    assert(no_worse(word, vocab, prev.0, j));
                }
            }
        }
    }
}

/// A correction is the word itself when the vocabulary holds it.  Otherwise,
/// when some vocabulary word lies within the maximal distance, the correction
/// is one of them, and no other within reach is closer, or as close and more
/// frequent; when none lies within reach, the word is kept.
pub proof fn law_correct_word(word: Seq<char>, vocab: Seq<(Seq<char>, usize)>)
    ensures
        in_vocab(word, vocab) ==> spec_correct_word(word, vocab) == word,
        !in_vocab(word, vocab) && (forall|j: int| 0 <= j < vocab.len() ==> !#[trigger] in_reach(word, vocab, j))
            ==> spec_correct_word(word, vocab) == word,
        !in_vocab(word, vocab) && (exists|j: int| 0 <= j < vocab.len() && #[trigger] in_reach(word, vocab, j))
            ==> exists|i: int| {
                &&& 0 <= i < vocab.len()
                &&& spec_correct_word(word, vocab) == #[trigger] vocab[i].0
                &&& in_reach(word, vocab, i)
                &&& forall|j: int| 0 <= j < vocab.len() && #[trigger] in_reach(word, vocab, j) ==> no_worse(word, vocab, i, j)
            },
{
    lemma_best_scan(word, vocab, vocab.len());
    let b = best_scan(word, vocab, vocab.len()).0;
    if !in_vocab(word, vocab) && b >= 0 {
        assert(spec_correct_word(word, vocab) == vocab[b].0);
    }
}

/// Whether a vocabulary word equals `wc`.
fn vocab_has(wc: &Vec<char>, vocab: &[(String, usize)]) -> (r: bool)
    ensures
        r == in_vocab(wc@, vocab_view(vocab@)),
{
    let ghost vv = vocab_view(vocab@);
    let mut k: usize = 0;
    while k < vocab.len()
        invariant
            k <= vocab.len(),
            vv == vocab_view(vocab@),
            forall|i: int| 0 <= i < k ==> #[trigger] vv[i].0 != wc@,
        decreases vocab.len() - k,
    {
        let vc = to_chars(vocab[k].0.as_str());
        if chars_eq(&vc, wc) {
            assert(vv[k as int].0 == wc@);
            return true;
        }
        k = k + 1;
    }
    false
}

/// Corrects a single word against the vocabulary: an exact match is kept;
/// otherwise the closest word within the maximal distance (2, or 3 for words
/// longer than 8 bytes) is taken, the more frequent on equal distance, the
/// first on equal frequency; with none in reach the word is kept.
pub fn correct_word(word: &str, vocab: &[(String, usize)]) -> (r: String)
    ensures
        r@ == spec_correct_word(word@, vocab_view(vocab@)),
{
    let ghost vv = vocab_view(vocab@);
    let wc = to_chars(word);
    if vocab_has(&wc, vocab) {
        return string_of(word);
    }
    let max_d: usize = if byte_len_capped(&wc, 9) <= 8 { 2 } else { 3 };
    let mut best: Option<usize> = None;
    let mut best_dist: usize = usize::MAX;
    let mut best_freq: usize = 0;
    let mut k: usize = 0;
    while k < vocab.len()
        invariant
            k <= vocab.len(),
            vv == vocab_view(vocab@),
            wc@ == word@,
            max_d == max_dist(word@),
            best_scan(word@, vv, k as nat) == (
                match best {
                    Some(b) => b as int,
                    None => -1,
                },
                best_dist as int,
                best_freq as int,
            ),
            best matches Some(b) ==> b < vocab.len(),
        decreases vocab.len() - k,
    {
        let vc = to_chars(vocab[k].0.as_str());
        let freq = vocab[k].1;
        assert(vv[k as int] == (vc@, freq));
        let (wl, vl) = (wc.len(), vc.len());
        let diff = if wl >= vl { wl - vl } else { vl - wl };
        if diff > max_d {
            // Words whose lengths differ by more than the reach are out of
            // reach, since the edit distance is at least that difference.
            proof {
                lemma_lev_len_diff(wc@, vc@);
            }
        } else {
            let dist = levenshtein_chars(&wc, &vc);
            if dist <= max_d && (dist < best_dist || (dist == best_dist && freq > best_freq)) {
                best = Some(k);
                best_dist = dist;
                best_freq = freq;
            }
        }
        k = k + 1;
    }
    assert(vv.len() == vocab.len());
    match best {
        Some(b) => vocab[b].0.clone(),
        None => string_of(word),
    }
}

/// The corrected form of each word of a query.
pub open spec fn corrected_words(words: Seq<Seq<char>>, vocab: Seq<(Seq<char>, usize)>) -> Seq<Seq<char>> {
    Seq::new(words.len(), |i: int| spec_correct_word(spec_lowercase(words[i]), vocab))
}

/// The (lowercased word, correction) pairs of the first `k` words whose
/// correction differs from the lowercased word, in order.
pub open spec fn corrections_upto(words: Seq<Seq<char>>, vocab: Seq<(Seq<char>, usize)>, k: nat) -> Seq<(Seq<char>, Seq<char>)>
    decreases k,
{
    if k == 0 {
        Seq::empty()
    } else {
        let prev = corrections_upto(words, vocab, (k - 1) as nat);
        let low = spec_lowercase(words[k - 1]);
        let c = spec_correct_word(low, vocab);
        if c != low {
            prev.push((low, c))
        } else {
            prev
        }
    }
}

/// The views of a sequence of string pairs.
pub open spec fn pair_views(v: Seq<(String, String)>) -> Seq<(Seq<char>, Seq<char>)> {
    Seq::new(v.len(), |i: int| (v[i].0@, v[i].1@))
}

/// Corrects a query word by word against the vocabulary: each
/// whitespace-separated word is lowercased and corrected; the result is the
/// corrected words joined by single spaces, and the list of the words that
/// changed with their corrections.
pub fn correct_query(query: &str, vocab: &[(String, usize)]) -> (r: (String, Vec<(String, String)>))
    ensures
        r.0@ == join_with(corrected_words(ws_words(query@), vocab_view(vocab@)), seq![' ']),
        pair_views(r.1@) == corrections_upto(
            ws_words(query@),
            vocab_view(vocab@),
            ws_words(query@).len(),
        ),
{
    let ghost vv = vocab_view(vocab@);
    let qc = to_chars(query);
    let words = split_whitespace_chars(&qc);
    let ghost ws = ws_words(query@);
    let mut out: Vec<String> = Vec::new();
    let mut corrections: Vec<(String, String)> = Vec::new();
    let mut k: usize = 0;
    while k < words.len()
        invariant
            k <= words.len(),
            vv == vocab_view(vocab@),
            views(words@) == ws,
            string_views(out@) == corrected_words(ws, vv).take(k as int),
            pair_views(corrections@) == corrections_upto(ws, vv, k as nat),
        decreases words.len() - k,
    {
        assert(words@[k as int]@ == ws[k as int]);
        let w = from_chars(&words[k]);
        let lower = to_lowercase(w.as_str());
        let corrected = correct_word(lower.as_str(), vocab);
        let lc = to_chars(lower.as_str());
        let cc = to_chars(corrected.as_str());
        let ghost old_c = corrections@;
        let ghost old_o = out@;
        if !chars_eq(&lc, &cc) {
            corrections.push((lower, corrected.clone()));
            assert(pair_views(corrections@) =~= pair_views(old_c).push((spec_lowercase(ws[k as int]), corrected@)));
        } else {
            assert(pair_views(corrections@) =~= pair_views(old_c));
        }
        assert(corrected@ == corrected_words(ws, vv)[k as int]);
        out.push(corrected);
        assert(string_views(out@) =~= string_views(old_o).push(corrected_words(ws, vv)[k as int]));
        assert(corrected_words(ws, vv).take(k + 1) =~= corrected_words(ws, vv).take(k as int).push(corrected_words(ws, vv)[k as int]));
        assert(string_views(out@) =~= corrected_words(ws, vv).take(k + 1));
        k = k + 1;
    }
    assert(corrected_words(ws, vv).take(words.len() as int) =~= corrected_words(ws, vv));
    let sp = " ";
    proof {
        reveal_strlit(" ");
    }
    let joined = join_strings(&out, sp);
    assert(sp@ == seq![' ']);
    (joined, corrections)
}

// ─── Tokens ──────────────────────────────────────────────────────────────────

/// An ASCII letter.
pub open spec fn is_ascii_alpha(c: char) -> bool {
    ('a' <= c <= 'z') || ('A' <= c <= 'Z')
}

/// A character that may continue a token: ASCII letter, digit, `_` or `-`.
pub open spec fn is_token_char(c: char) -> bool {
    is_ascii_alpha(c) || ('0' <= c <= '9') || c == '_' || c == '-'
}

fn ascii_alpha(c: char) -> (r: bool)
    ensures
        r == is_ascii_alpha(c),
{
    ('a' <= c && c <= 'z') || ('A' <= c && c <= 'Z')
}

fn token_char(c: char) -> (r: bool)
    ensures
        r == is_token_char(c),
{
    ascii_alpha(c) || ('0' <= c && c <= '9') || c == '_' || c == '-'
}

/// A finished token is kept, lowercased, when it has at least 3 characters.
pub open spec fn flush_token(done: Seq<Seq<char>>, cur: Seq<char>) -> Seq<Seq<char>> {
    if cur.len() >= 3 {
        done.push(ascii_lower_seq(cur))
    } else {
        done
    }
}

/// The scan for tokens: the tokens finished so far and the run in progress
/// (empty when outside a token).  A run starts at an ASCII letter and goes
/// on over token characters.
pub open spec fn token_scan(s: Seq<char>) -> (Seq<Seq<char>>, Seq<char>)
    decreases s.len(),
{
    if s.len() == 0 {
        (Seq::empty(), Seq::empty())
    } else {
        let (done, cur) = token_scan(s.drop_last());
        let c = s.last();
        if cur.len() > 0 {
            if is_token_char(c) {
                (done, cur.push(c))
            } else {
                (flush_token(done, cur), Seq::empty())
            }
        } else if is_ascii_alpha(c) {
            (done, seq![c])
        } else {
            (done, Seq::empty())
        }
    }
}

/// The tokens of `s`: the runs matching `[a-zA-Z][a-zA-Z0-9_-]{2,}`,
/// lowercased, in order.
pub open spec fn spec_extract_tokens(s: Seq<char>) -> Seq<Seq<char>> {
    let (done, cur) = token_scan(s);
    flush_token(done, cur)
}

/// Extracts raw tokens from text: the runs matching
/// `[a-zA-Z][a-zA-Z0-9_-]{2,}`, lowercased.
pub fn extract_tokens(text: &str) -> (r: Vec<String>)
    ensures
        string_views(r@) == spec_extract_tokens(text@),
{
    let chars = to_chars(text);
    let mut tokens: Vec<String> = Vec::new();
    let mut cur: Vec<char> = Vec::new();
    let mut i: usize = 0;
    while i < chars.len()
        invariant
            i <= chars.len(),
            chars@ == text@,
            string_views(tokens@) == token_scan(chars@.take(i as int)).0,
            cur@ == token_scan(chars@.take(i as int)).1,
        decreases chars.len() - i,
    {
        assert(chars@.take(i + 1).drop_last() == chars@.take(i as int));
        let c = chars[i];
        let ghost old_t = tokens@;
        if cur.len() > 0 {
            if token_char(c) {
                cur.push(c);
            } else {
                if cur.len() >= 3 {
                    let low = ascii_lower_vec(&cur);
                    tokens.push(from_chars(&low));
                    assert(string_views(tokens@) =~= string_views(old_t).push(ascii_lower_seq(cur@)));
                }
                cur = Vec::new();
            }
        } else if ascii_alpha(c) {
            cur = Vec::new();
            cur.push(c);
            assert(cur@ =~= seq![c]);
        }
        i = i + 1;
    }
    assert(chars@.take(chars.len() as int) == chars@);
    if cur.len() >= 3 {
        let ghost old_t = tokens@;
        let low = ascii_lower_vec(&cur);
        tokens.push(from_chars(&low));
        assert(string_views(tokens@) =~= string_views(old_t).push(ascii_lower_seq(cur@)));
    }
    tokens
}

/// One more character of the token scan.
proof fn lemma_token_step(s: Seq<char>, n: int)
    requires
        0 <= n < s.len(),
    ensures
        ({
            let (done, cur) = token_scan(s.take(n));
            let c = s[n];
            token_scan(s.take(n + 1)) == if cur.len() > 0 {
                if is_token_char(c) {
                    (done, cur.push(c))
                } else {
                    (flush_token(done, cur), Seq::<char>::empty())
                }
            } else if is_ascii_alpha(c) {
                (done, seq![c])
            } else {
                (done, Seq::<char>::empty())
            }
        }),
{
    assert(s.take(n + 1).drop_last() =~= s.take(n));
    assert(s.take(n + 1).last() == s[n]);
}

/// Finished tokens stay finished as the scan goes on.
proof fn lemma_token_kept(s: Seq<char>, n: int, m: int, t: Seq<char>)
    requires
        0 <= n <= m <= s.len(),
        token_scan(s.take(n)).0.contains(t),
    ensures
        token_scan(s.take(m)).0.contains(t),
    decreases m - n,
{
    if n < m {
        lemma_token_step(s, n);
        let (done, cur) = token_scan(s.take(n));
        let k = choose|k: int| 0 <= k < done.len() && done[k] == t;
        let d2 = token_scan(s.take(n + 1)).0;
        assert(d2[k] == t);
        lemma_token_kept(s, n + 1, m, t);
    }
}

/// Inside a run of token characters that starts with a letter after a
/// non-token character (or at the start), the run in progress is exactly
/// the text from the letter on.
proof fn lemma_token_run(s: Seq<char>, i: int, k: int)
    requires
        0 <= i < k <= s.len(),
        is_ascii_alpha(s[i]),
        forall|q: int| i <= q < k ==> #[trigger] is_token_char(s[q]),
        i == 0 || !is_token_char(s[i - 1]),
    ensures
        token_scan(s.take(k)).1 == s.subrange(i, k),
        token_scan(s.take(k)).0 == token_scan(s.take(i)).0,
    decreases k - i,
{
    if k == i + 1 {
        lemma_token_step(s, i);
        if i > 0 {
            lemma_token_step(s, i - 1);
        }
        assert(token_scan(s.take(i)).1.len() == 0) by {
            if i == 0 {
                assert(s.take(0) =~= Seq::<char>::empty());
            }
        }
        assert(s.subrange(i, k) =~= seq![s[i]]);
    } else {
        lemma_token_run(s, i, k - 1);
        lemma_token_step(s, k - 1);
        assert(s.subrange(i, k) =~= s.subrange(i, k - 1).push(s[k - 1]));
    }
}

/// Every word the pattern `[a-zA-Z][a-zA-Z0-9_-]*` matches in full, of at
/// least three characters and bounded by the text's ends or by characters
/// outside the pattern, is a token, lowercased, however long it is.
pub proof fn law_extract_tokens_complete(s: Seq<char>, i: int, j: int)
    requires
        0 <= i,
        i + 3 <= j <= s.len(),
        ('a' <= s[i] <= 'z') || ('A' <= s[i] <= 'Z'),
        forall|q: int| i <= q < j ==> ('a' <= #[trigger] s[q] <= 'z') || ('A' <= s[q] <= 'Z') || ('0' <= s[q] <= '9')
            || s[q] == '_' || s[q] == '-',
        i == 0 || !(('a' <= s[i - 1] <= 'z') || ('A' <= s[i - 1] <= 'Z') || ('0' <= s[i - 1] <= '9')
            || s[i - 1] == '_' || s[i - 1] == '-'),
        j == s.len() || !(('a' <= s[j] <= 'z') || ('A' <= s[j] <= 'Z') || ('0' <= s[j] <= '9') || s[j] == '_'
            || s[j] == '-'),
    ensures
        spec_extract_tokens(s).contains(ascii_lower_seq(s.subrange(i, j))),
{
    let t = ascii_lower_seq(s.subrange(i, j));
    assert forall|q: int| i <= q < j implies #[trigger] is_token_char(s[q]) by {}
    lemma_token_run(s, i, j);
    let (done, cur) = token_scan(s.take(j));
    assert(cur.len() >= 3);
    assert(s.take(s.len() as int) =~= s);
    if j == s.len() {
        assert(spec_extract_tokens(s) == done.push(t));
        assert(spec_extract_tokens(s)[done.len() as int] == t);
    } else {
        lemma_token_step(s, j);
        let d2 = token_scan(s.take(j + 1)).0;
        assert(d2 == done.push(t));
        assert(d2[done.len() as int] == t);
        lemma_token_kept(s, j + 1, s.len() as int, t);
        let (dn, cn) = token_scan(s);
        let k = choose|k: int| 0 <= k < dn.len() && dn[k] == t;
        assert(flush_token(dn, cn)[k] == t);
    }
}

/// A well-formed token: at least 3 characters, a lowercase ASCII letter
/// first, then lowercase ASCII letters, digits, `_` or `-`.
pub open spec fn is_token(t: Seq<char>) -> bool {
    &&& t.len() >= 3
    &&& 'a' <= t[0] <= 'z'
    &&& forall|k: int| 0 <= k < t.len() ==> #[trigger] is_token_char(t[k]) && !('A' <= t[k] <= 'Z')
}

proof fn lemma_flush_token(done: Seq<Seq<char>>, cur: Seq<char>)
    requires
        forall|j: int| 0 <= j < done.len() ==> #[trigger] is_token(done[j]),
        cur.len() > 0 ==> is_ascii_alpha(cur[0]),
        forall|k: int| 0 <= k < cur.len() ==> #[trigger] is_token_char(cur[k]),
    ensures
        forall|j: int| 0 <= j < flush_token(done, cur).len() ==> #[trigger] is_token(flush_token(done, cur)[j]),
{
    if cur.len() >= 3 {
        let low = ascii_lower_seq(cur);
        assert forall|k: int| 0 <= k < low.len() implies #[trigger] is_token_char(low[k]) && !('A' <= low[k] <= 'Z') by {
            assert(is_token_char(cur[k]));
        }
        assert(is_token(low));
        assert forall|j: int| 0 <= j < flush_token(done, cur).len() implies #[trigger] is_token(flush_token(done, cur)[j]) by {
            if j < done.len() {
                assert(flush_token(done, cur)[j] == done[j]);
            }
        }
    }
}

proof fn lemma_token_scan(s: Seq<char>)
    ensures
        forall|j: int| 0 <= j < token_scan(s).0.len() ==> #[trigger] is_token(token_scan(s).0[j]),
        token_scan(s).1.len() > 0 ==> is_ascii_alpha(token_scan(s).1[0]),
        forall|k: int| 0 <= k < token_scan(s).1.len() ==> #[trigger] is_token_char(token_scan(s).1[k]),
    decreases s.len(),
{
    if s.len() > 0 {
        lemma_token_scan(s.drop_last());
        let (done, cur) = token_scan(s.drop_last());
        let c = s.last();
        if cur.len() > 0 {
            if is_token_char(c) {
                assert forall|k: int| 0 <= k < cur.push(c).len() implies #[trigger] is_token_char(cur.push(c)[k]) by {
                    if k < cur.len() {
                        assert(cur.push(c)[k] == cur[k]);
                    }
                }
            } else {
                lemma_flush_token(done, cur);
            }
        }
    }
}

/// Every extracted token has at least 3 characters, starts with a lowercase
/// ASCII letter and holds only lowercase ASCII letters, digits, `_` and `-`.
pub proof fn law_extract_tokens(text: Seq<char>)
    ensures
        forall|j: int| 0 <= j < spec_extract_tokens(text).len() ==> #[trigger] is_token(spec_extract_tokens(text)[j]),
{
    lemma_token_scan(text);
    let (done, cur) = token_scan(text);
    lemma_flush_token(done, cur);
}

// ─── Compound words ──────────────────────────────────────────────────────────

/// What `char::is_uppercase` gives for `c` (the Unicode `Uppercase` property).
pub uninterp spec fn spec_is_uppercase(c: char) -> bool;

/// `c.is_uppercase()`.
#[verifier::external_body]
fn char_is_uppercase(c: char) -> (r: bool)
    ensures
        r == spec_is_uppercase(c),
{
    c.is_uppercase()
}

/// The camel-case scan: parts finished so far and the part in progress.  An
/// uppercase character after the first position starts a new part.
pub open spec fn camel_scan(s: Seq<char>) -> (Seq<Seq<char>>, Seq<char>)
    decreases s.len(),
{
    if s.len() == 0 {
        (Seq::empty(), Seq::empty())
    } else {
        let (done, cur) = camel_scan(s.drop_last());
        let c = s.last();
        if spec_is_uppercase(c) && s.len() > 1 && cur.len() > 0 {
            (done.push(cur), seq![c])
        } else {
            (done, cur.push(c))
        }
    }
}

/// The camel-case parts of `s`.
pub open spec fn camel_parts(s: Seq<char>) -> Seq<Seq<char>> {
    let (done, cur) = camel_scan(s);
    if cur.len() > 0 {
        done.push(cur)
    } else {
        done
    }
}

fn camel_split_chars(s: &Vec<char>) -> (r: Vec<Vec<char>>)
    ensures
        views(r@) == camel_parts(s@),
{
    let mut done: Vec<Vec<char>> = Vec::new();
    let mut cur: Vec<char> = Vec::new();
    let mut i: usize = 0;
    while i < s.len()
        invariant
            i <= s.len(),
            views(done@) == camel_scan(s@.take(i as int)).0,
            cur@ == camel_scan(s@.take(i as int)).1,
        decreases s.len() - i,
    {
        assert(s@.take(i + 1).drop_last() == s@.take(i as int));
        let c = s[i];
        let ghost old_done = done@;
        if char_is_uppercase(c) && i > 0 && cur.len() > 0 {
            done.push(cur);
            assert(views(done@) =~= views(old_done).push(camel_scan(s@.take(i as int)).1));
            cur = Vec::new();
            cur.push(c);
            assert(cur@ =~= seq![c]);
        } else {
            cur.push(c);
        }
        i = i + 1;
    }
    assert(s@.take(s.len() as int) == s@);
    if cur.len() > 0 {
        let ghost old_done = done@;
        done.push(cur);
        assert(views(done@) =~= views(old_done).push(camel_scan(s@).1));
    }
    done
}

/// Strings holding the given character vectors.
fn strings_of(parts: &Vec<Vec<char>>) -> (r: Vec<String>)
    ensures
        string_views(r@) == views(parts@),
{
    let mut r: Vec<String> = Vec::new();
    let mut i: usize = 0;
    while i < parts.len()
        invariant
            i <= parts.len(),
            string_views(r@) == views(parts@).take(i as int),
        decreases parts.len() - i,
    {
        let ghost old_r = r@;
        r.push(from_chars(&parts[i]));
        assert(string_views(r@) =~= string_views(old_r).push(views(parts@)[i as int]));
        assert(views(parts@).take(i + 1) =~= views(parts@).take(i as int).push(views(parts@)[i as int]));
        i = i + 1;
    }
    assert(views(parts@).take(parts.len() as int) =~= views(parts@));
    r
}

/// Splits a camel-case string into parts: a new part starts at each
/// uppercase character after the first one.
pub fn split_camel_case(s: &str) -> (r: Vec<String>)
    ensures
        string_views(r@) == camel_parts(s@),
{
    let sc = to_chars(s);
    let parts = camel_split_chars(&sc);
    strings_of(&parts)
}

/// The characters concatenated.
pub open spec fn concat_all(ls: Seq<Seq<char>>) -> Seq<char>
    decreases ls.len(),
{
    if ls.len() == 0 {
        Seq::empty()
    } else {
        concat_all(ls.drop_last()) + ls.last()
    }
}

proof fn lemma_camel_scan(s: Seq<char>)
    ensures
        concat_all(camel_scan(s).0) + camel_scan(s).1 == s,
        forall|j: int| 0 <= j < camel_scan(s).0.len() ==> #[trigger] camel_scan(s).0[j].len() > 0,
        forall|j: int| 1 <= j < camel_scan(s).0.len() ==> spec_is_uppercase(#[trigger] camel_scan(s).0[j][0]),
        camel_scan(s).0.len() > 0 ==> camel_scan(s).1.len() > 0 && spec_is_uppercase(camel_scan(s).1[0]),
        forall|j: int, k: int|
            0 <= j < camel_scan(s).0.len() && 1 <= k < camel_scan(s).0[j].len()
                ==> !spec_is_uppercase(#[trigger] camel_scan(s).0[j][k]),
        forall|k: int| 1 <= k < camel_scan(s).1.len() ==> !spec_is_uppercase(#[trigger] camel_scan(s).1[k]),
    decreases s.len(),
{
    if s.len() > 0 {
        lemma_camel_scan(s.drop_last());
        let (done, cur) = camel_scan(s.drop_last());
        let c = s.last();
        if spec_is_uppercase(c) && s.len() > 1 && cur.len() > 0 {
            assert(done.push(cur).drop_last() == done);
            assert(s =~= s.drop_last().push(c));
            assert(concat_all(done.push(cur)) + seq![c] =~= s);
        } else {
            assert(s =~= s.drop_last().push(c));
            assert(concat_all(done) + cur.push(c) =~= (concat_all(done) + cur).push(c));
        }
    }
}

/// Splitting into camel-case parts loses and adds nothing: the parts, in
/// order, make up the string again; every part is non-empty, every part
/// after the first starts with an uppercase character, and no character
/// after a part's first is uppercase.
pub proof fn law_camel_parts(s: Seq<char>)
    ensures
        concat_all(camel_parts(s)) == s,
        forall|j: int| 0 <= j < camel_parts(s).len() ==> #[trigger] camel_parts(s)[j].len() > 0,
        forall|j: int| 1 <= j < camel_parts(s).len() ==> spec_is_uppercase(#[trigger] camel_parts(s)[j][0]),
        forall|j: int, k: int|
            0 <= j < camel_parts(s).len() && 1 <= k < camel_parts(s)[j].len()
                ==> !spec_is_uppercase(#[trigger] camel_parts(s)[j][k]),
{
    lemma_camel_scan(s);
    let (done, cur) = camel_scan(s);
    if cur.len() > 0 {
        assert(done.push(cur).drop_last() == done);
        assert forall|j: int, k: int|
            0 <= j < camel_parts(s).len() && 1 <= k < camel_parts(s)[j].len()
                implies !spec_is_uppercase(#[trigger] camel_parts(s)[j][k]) by {
            if j < done.len() {
                assert(camel_parts(s)[j] == done[j]);
            } else {
                assert(camel_parts(s)[j] == cur);
            }
        }
    } else {
        assert(concat_all(done) + cur =~= concat_all(done));
    }
}

/// A separator of compound words: `_` or `-`.
pub open spec fn is_compound_sep(c: char) -> bool {
    c == '_' || c == '-'
}

/// The scan for `str::split(['_', '-'])`: pieces finished so far and the
/// piece in progress.
pub open spec fn sep_scan(s: Seq<char>) -> (Seq<Seq<char>>, Seq<char>)
    decreases s.len(),
{
    if s.len() == 0 {
        (Seq::empty(), Seq::empty())
    } else {
        let (done, cur) = sep_scan(s.drop_last());
        if is_compound_sep(s.last()) {
            (done.push(cur), Seq::empty())
        } else {
            (done, cur.push(s.last()))
        }
    }
}

/// The pieces of `s` between `_` and `-` separators, empty ones included.
pub open spec fn sep_parts(s: Seq<char>) -> Seq<Seq<char>> {
    sep_scan(s).0.push(sep_scan(s).1)
}

fn sep_split_chars(s: &Vec<char>) -> (r: Vec<Vec<char>>)
    ensures
        views(r@) == sep_parts(s@),
{
    let mut done: Vec<Vec<char>> = Vec::new();
    let mut cur: Vec<char> = Vec::new();
    let mut i: usize = 0;
    while i < s.len()
        invariant
            i <= s.len(),
            views(done@) == sep_scan(s@.take(i as int)).0,
            cur@ == sep_scan(s@.take(i as int)).1,
        decreases s.len() - i,
    {
        assert(s@.take(i + 1).drop_last() == s@.take(i as int));
        let c = s[i];
        let ghost old_done = done@;
        if c == '_' || c == '-' {
            done.push(cur);
            assert(views(done@) =~= views(old_done).push(sep_scan(s@.take(i as int)).1));
            cur = Vec::new();
        } else {
            cur.push(c);
        }
        i = i + 1;
    }
    assert(s@.take(s.len() as int) == s@);
    let ghost old_done = done@;
    done.push(cur);
    assert(views(done@) =~= views(old_done).push(sep_scan(s@).1));
    done
}

/// Adds the lowercased parts of at least 3 bytes that are not there yet.
pub open spec fn add_parts(result: Seq<Seq<char>>, parts: Seq<Seq<char>>) -> Seq<Seq<char>>
    decreases parts.len(),
{
    if parts.len() == 0 {
        result
    } else {
        let r = add_parts(result, parts.drop_last());
        let p = spec_lowercase(parts.last());
        if byte_len(p) >= 3 && !r.contains(p) {
            r.push(p)
        } else {
            r
        }
    }
}

/// The words of a compound identifier: the whole identifier lowercased, then
/// its lowercased parts of at least 3 bytes, each once.  The parts are those
/// between `_` and `-` when there is a separator, else the camel-case parts.
pub open spec fn spec_split_compound(w: Seq<char>) -> Seq<Seq<char>> {
    let base = seq![spec_lowercase(w)];
    if sep_parts(w).len() > 1 {
        add_parts(base, sep_parts(w))
    } else if camel_parts(w).len() > 1 {
        add_parts(base, camel_parts(w))
    } else {
        base
    }
}

/// Whether one of `v` equals `c`.
fn strings_contain(v: &Vec<String>, c: &Vec<char>) -> (r: bool)
    ensures
        r == string_views(v@).contains(c@),
{
    let ghost vs = string_views(v@);
    let mut k: usize = 0;
    while k < v.len()
        invariant
            k <= v.len(),
            vs == string_views(v@),
            forall|j: int| 0 <= j < k ==> #[trigger] vs[j] != c@,
        decreases v.len() - k,
    {
        let vc = to_chars(v[k].as_str());
        if chars_eq(&vc, c) {
            assert(vs[k as int] == c@);
            return true;
        }
        k = k + 1;
    }
    false
}

fn push_parts(result: &mut Vec<String>, parts: &Vec<Vec<char>>)
    ensures
        string_views(final(result)@) == add_parts(string_views(old(result)@), views(parts@)),
{
    let ghost start = string_views(result@);
    let mut i: usize = 0;
    while i < parts.len()
        invariant
            i <= parts.len(),
            string_views(result@) == add_parts(start, views(parts@).take(i as int)),
        decreases parts.len() - i,
    {
        let ghost pre = views(parts@).take(i as int);
        assert(views(parts@).take(i + 1).drop_last() == pre);
        let whole = from_chars(&parts[i]);
        let p = to_lowercase(whole.as_str());
        let pc = to_chars(p.as_str());
        if byte_len_capped(&pc, 3) >= 3 && !strings_contain(result, &pc) {
            let ghost old_r = result@;
            result.push(p);
            assert(string_views(result@) =~= string_views(old_r).push(pc@));
        }
        i = i + 1;
    }
    assert(views(parts@).take(parts.len() as int) == views(parts@));
}

/// Splits a compound identifier into its words, all lowercase: the whole
/// identifier first, then the parts between `_` and `-` (or, with no such
/// separator, the camel-case parts), each of at least 3 bytes and once.
pub fn split_compound(word: &str) -> (r: Vec<String>)
    ensures
        string_views(r@) == spec_split_compound(word@),
{
    let mut result: Vec<String> = Vec::new();
    result.push(to_lowercase(word));
    assert(string_views(result@) =~= seq![spec_lowercase(word@)]);
    let wc = to_chars(word);
    let snake = sep_split_chars(&wc);
    if snake.len() > 1 {
        push_parts(&mut result, &snake);
        return result;
    }
    let camel = camel_split_chars(&wc);
    if camel.len() > 1 {
        push_parts(&mut result, &camel);
    }
    result
}

/// No element occurs twice.
pub open spec fn distinct_words(ws: Seq<Seq<char>>) -> bool {
    forall|i: int, j: int| 0 <= i < j < ws.len() ==> ws[i] != ws[j]
}

proof fn lemma_add_parts(result: Seq<Seq<char>>, parts: Seq<Seq<char>>)
    requires
        distinct_words(result),
    ensures
        distinct_words(add_parts(result, parts)),
        add_parts(result, parts).len() >= result.len(),
        add_parts(result, parts).take(result.len() as int) == result,
        forall|j: int| result.len() <= j < add_parts(result, parts).len()
            ==> byte_len(#[trigger] add_parts(result, parts)[j]) >= 3,
    decreases parts.len(),
{
    if parts.len() > 0 {
        lemma_add_parts(result, parts.drop_last());
        let r = add_parts(result, parts.drop_last());
        let p = spec_lowercase(parts.last());
        if byte_len(p) >= 3 && !r.contains(p) {
            assert forall|i: int, j: int| 0 <= i < j < r.push(p).len() implies r.push(p)[i] != r.push(p)[j] by {
                if j == r.len() {
                    assert(r.contains(r[i]));
                }
            }
            assert(r.push(p).take(result.len() as int) =~= r.take(result.len() as int));
        }
    }
}

/// The words of a compound identifier start with the whole identifier,
/// lowercased; no word occurs twice; every further word has at least 3
/// bytes.
pub proof fn law_split_compound(w: Seq<char>)
    ensures
        spec_split_compound(w).len() >= 1,
        spec_split_compound(w)[0] == spec_lowercase(w),
        distinct_words(spec_split_compound(w)),
        forall|j: int| 1 <= j < spec_split_compound(w).len() ==> byte_len(#[trigger] spec_split_compound(w)[j]) >= 3,
{
    let base = seq![spec_lowercase(w)];
    lemma_add_parts(base, sep_parts(w));
    lemma_add_parts(base, camel_parts(w));
    assert(spec_split_compound(w).take(1)[0] == spec_split_compound(w)[0]);
}

// ─── Vocabulary ──────────────────────────────────────────────────────────────

/// The words that a sequence of tokens contributes: each token split into
/// its compound words, in order.
pub open spec fn words_of_tokens(toks: Seq<Seq<char>>) -> Seq<Seq<char>>
    decreases toks.len(),
{
    if toks.len() == 0 {
        Seq::empty()
    } else {
        words_of_tokens(toks.drop_last()) + spec_split_compound(toks.last())
    }
}

/// The words that one document contributes to the vocabulary.
pub open spec fn content_words(c: Seq<char>) -> Seq<Seq<char>> {
    words_of_tokens(spec_extract_tokens(c))
}

/// The words that all documents contribute, in order.
pub open spec fn words_of_contents(cs: Seq<Seq<char>>) -> Seq<Seq<char>>
    decreases cs.len(),
{
    if cs.len() == 0 {
        Seq::empty()
    } else {
        words_of_contents(cs.drop_last()) + content_words(cs.last())
    }
}

/// The first position of `w` among the words of a tally, or -1.
pub open spec fn find_key(m: Seq<(Seq<char>, usize)>, w: Seq<char>) -> int
    decreases m.len(),
{
    if m.len() == 0 {
        -1
    } else {
        let r = find_key(m.drop_last(), w);
        if r >= 0 {
            r
        } else if m.last().0 == w {
            m.len() - 1
        } else {
            -1
        }
    }
}

/// One more occurrence of `w`: its count goes up by one (saturating), or it
/// joins the tally at the end with count 1.
pub open spec fn tally(m: Seq<(Seq<char>, usize)>, w: Seq<char>) -> Seq<(Seq<char>, usize)> {
    let i = find_key(m, w);
    if i >= 0 {
        m.update(i, (w, if m[i].1 < usize::MAX { (m[i].1 + 1) as usize } else { usize::MAX }))
    } else {
        m.push((w, 1usize))
    }
}

/// The tally of a sequence of words, in order of first occurrence.
pub open spec fn count_fold(ws: Seq<Seq<char>>) -> Seq<(Seq<char>, usize)>
    decreases ws.len(),
{
    if ws.len() == 0 {
        Seq::empty()
    } else {
        tally(count_fold(ws.drop_last()), ws.last())
    }
}

fn find_word(counts: &Vec<(String, usize)>, w: &Vec<char>) -> (r: Option<usize>)
    ensures
        match r {
            Some(i) => i as int == find_key(vocab_view(counts@), w@) && i < counts.len(),
            None => find_key(vocab_view(counts@), w@) == -1,
        },
{
    let ghost m = vocab_view(counts@);
    let mut k: usize = 0;
    while k < counts.len()
        invariant
            k <= counts.len(),
            m == vocab_view(counts@),
            find_key(m.take(k as int), w@) == -1,
        decreases counts.len() - k,
    {
        assert(m.take(k as int + 1).drop_last() == m.take(k as int));
        let vc = to_chars(counts[k].0.as_str());
        if chars_eq(&vc, w) {
            proof {
                lemma_find_key_prefix(m, w@, (k + 1) as nat);
            }
            return Some(k);
        }
        k = k + 1;
    }
    assert(m.take(counts.len() as int) == m);
    None
}

proof fn lemma_find_key_prefix(m: Seq<(Seq<char>, usize)>, w: Seq<char>, k: nat)
    requires
        1 <= k <= m.len(),
        find_key(m.take(k as int), w) >= 0,
    ensures
        find_key(m, w) == find_key(m.take(k as int), w),
    decreases m.len() - k,
{
    if k < m.len() {
        let k1: nat = k + 1;
        assert(m.take(k1 as int).drop_last() == m.take(k as int));
        assert(find_key(m.take(k1 as int), w) == find_key(m.take(k as int), w));
        lemma_find_key_prefix(m, w, k1);
    } else {
        assert(m.take(k as int) == m);
    }
}

fn add_word(counts: &mut Vec<(String, usize)>, w: String)
    ensures
        vocab_view(final(counts)@) == tally(vocab_view(old(counts)@), w@),
{
    let wc = to_chars(w.as_str());
    let ghost m = vocab_view(counts@);
    match find_word(counts, &wc) {
        Some(i) => {
            let c = counts[i].1;
            counts.set(i, (w, c.saturating_add(1)));
            assert(vocab_view(counts@) =~= tally(m, wc@));
        },
        None => {
            counts.push((w, 1));
            assert(vocab_view(counts@) =~= tally(m, wc@));
        },
    }
}

proof fn lemma_count_fold_append(ws: Seq<Seq<char>>, more: Seq<Seq<char>>, k: nat)
    requires
        k < more.len(),
    ensures
        count_fold(ws + more.take(k as int + 1)) == tally(count_fold(ws + more.take(k as int)), more[k as int]),
{
    assert((ws + more.take(k as int + 1)).drop_last() =~= ws + more.take(k as int));
}

/// Counts the vocabulary of the given documents: every token of each
/// document is split into its compound words, and each word is counted;
/// the words come in order of first occurrence, each once.
pub fn vocabulary_counts(contents: &Vec<String>) -> (r: Vec<(String, usize)>)
    ensures
        vocab_view(r@) == count_fold(words_of_contents(string_views(contents@))),
{
    let ghost cs = string_views(contents@);
    let mut counts: Vec<(String, usize)> = Vec::new();
    let mut i: usize = 0;
    while i < contents.len()
        invariant
            i <= contents.len(),
            cs == string_views(contents@),
            vocab_view(counts@) == count_fold(words_of_contents(cs.take(i as int))),
        decreases contents.len() - i,
    {
        let ghost before = words_of_contents(cs.take(i as int));
        assert(cs.take(i + 1).drop_last() == cs.take(i as int));
        let tokens = extract_tokens(contents[i].as_str());
        let ghost toks = string_views(tokens@);
        let mut j: usize = 0;
        while j < tokens.len()
            invariant
                j <= tokens.len(),
                toks == string_views(tokens@),
                vocab_view(counts@) == count_fold(before + words_of_tokens(toks.take(j as int))),
            decreases tokens.len() - j,
        {
            let ghost mid = before + words_of_tokens(toks.take(j as int));
            assert(toks.take(j + 1).drop_last() == toks.take(j as int));
            let parts = split_compound(tokens[j].as_str());
            let ghost ps = string_views(parts@);
            let mut k: usize = 0;
            while k < parts.len()
                invariant
                    k <= parts.len(),
                    ps == string_views(parts@),
                    vocab_view(counts@) == count_fold(mid + ps.take(k as int)),
                decreases parts.len() - k,
            {
                proof {
                    lemma_count_fold_append(mid, ps, k as nat);
                }
                add_word(&mut counts, parts[k].clone());
                k = k + 1;
            }
            assert(ps.take(parts.len() as int) == ps);
            assert(mid + ps =~= before + words_of_tokens(toks.take(j + 1)));
            j = j + 1;
        }
        assert(toks.take(tokens.len() as int) == toks);
        assert(before + words_of_tokens(toks) =~= words_of_contents(cs.take(i + 1)));
        i = i + 1;
    }
    assert(cs.take(contents.len() as int) == cs);
    counts
}

/// How often `w` occurs in `ws`.
pub open spec fn occurrences(ws: Seq<Seq<char>>, w: Seq<char>) -> nat
    decreases ws.len(),
{
    if ws.len() == 0 {
        0
    } else {
        occurrences(ws.drop_last(), w) + if ws.last() == w { 1nat } else { 0nat }
    }
}

/// `n`, or `usize::MAX` when it does not fit.
pub open spec fn saturated(n: nat) -> int {
    if n < usize::MAX {
        n as int
    } else {
        usize::MAX as int
    }
}

proof fn lemma_find_key(m: Seq<(Seq<char>, usize)>, w: Seq<char>)
    ensures
        find_key(m, w) >= -1,
        find_key(m, w) >= 0 ==> find_key(m, w) < m.len() && m[find_key(m, w)].0 == w,
        find_key(m, w) == -1 ==> forall|i: int| 0 <= i < m.len() ==> #[trigger] m[i].0 != w,
    decreases m.len(),
{
    if m.len() > 0 {
        lemma_find_key(m.drop_last(), w);
        assert forall|i: int| 0 <= i < m.len() - 1 implies #[trigger] m[i] == m.drop_last()[i] by {}
    }
}

proof fn lemma_occurrences(ws: Seq<Seq<char>>, w: Seq<char>)
    ensures
        occurrences(ws, w) > 0 ==> ws.contains(w),
    decreases ws.len(),
{
    if ws.len() > 0 {
        lemma_occurrences(ws.drop_last(), w);
        if occurrences(ws.drop_last(), w) > 0 {
            let i = choose|i: int| 0 <= i < ws.drop_last().len() && ws.drop_last()[i] == w;
            assert(ws[i] == w);
        } else if ws.last() == w {
            assert(ws[ws.len() - 1] == w);
        }
    }
}

/// The tally of a sequence of words holds each word of the sequence exactly
/// once, and nothing else; the count of each is how often it occurs
/// (saturating at `usize::MAX`).
pub proof fn law_count_fold(ws: Seq<Seq<char>>)
    ensures
        forall|i: int, j: int| 0 <= i < j < count_fold(ws).len() ==> count_fold(ws)[i].0 != count_fold(ws)[j].0,
        forall|i: int| 0 <= i < count_fold(ws).len() ==> ws.contains(#[trigger] count_fold(ws)[i].0),
        forall|i: int| 0 <= i < count_fold(ws).len()
            ==> #[trigger] count_fold(ws)[i].1 == saturated(occurrences(ws, count_fold(ws)[i].0)),
        forall|w: Seq<char>| ws.contains(w) ==> find_key(count_fold(ws), w) >= 0,
    decreases ws.len(),
{
    if ws.len() > 0 {
        let prev = ws.drop_last();
        let w = ws.last();
        law_count_fold(prev);
        let m = count_fold(prev);
        let m2 = count_fold(ws);
        lemma_find_key(m, w);
        let i = find_key(m, w);
        assert forall|x: Seq<char>| prev.contains(x) implies ws.contains(x) by {
            let k = choose|k: int| 0 <= k < prev.len() && prev[k] == x;
            assert(ws[k] == x);
        }
        assert(ws.contains(w)) by {
            assert(ws[ws.len() - 1] == w);
        }
        if i >= 0 {
            assert(m2 == m.update(i, (w, if m[i].1 < usize::MAX { (m[i].1 + 1) as usize } else { usize::MAX })));
            assert forall|j: int| 0 <= j < m2.len() implies #[trigger] m2[j].1 == saturated(occurrences(ws, m2[j].0)) by {
                if j != i {
                    assert(m2[j] == m[j]);
                }
            }
            assert forall|x: Seq<char>| ws.contains(x) implies find_key(m2, x) >= 0 by {
                lemma_find_key(m2, x);
                if find_key(m2, x) == -1 {
                    if x == w {
                        assert(m2[i].0 != x);
                    } else {
                        let k = choose|k: int| 0 <= k < ws.len() && ws[k] == x;
                        assert(k < prev.len());
                        assert(prev[k] == x);
                        assert(prev.contains(x));
                        lemma_find_key(m, x);
                        let p = find_key(m, x);
                        assert(p >= 0);
                        assert(m2[p] == m[p]);
                        assert(m2[p].0 == x);
                    }
                }
            }
        } else {
            assert(m2 == m.push((w, 1usize)));
            assert(!prev.contains(w));
            lemma_occurrences(prev, w);
            assert forall|j: int| 0 <= j < m2.len() implies #[trigger] m2[j].1 == saturated(occurrences(ws, m2[j].0)) by {
                if j < m.len() {
                    assert(m2[j] == m[j]);
                }
            }
            assert forall|x: Seq<char>| ws.contains(x) implies find_key(m2, x) >= 0 by {
                lemma_find_key(m2, x);
                if find_key(m2, x) == -1 {
                    if x == w {
                        assert(m2[m.len() as int].0 == x);
                    } else {
                        let k = choose|k: int| 0 <= k < ws.len() && ws[k] == x;
                        assert(k < prev.len());
                        assert(prev[k] == x);
                        assert(prev.contains(x));
                        lemma_find_key(m, x);
                        let p = find_key(m, x);
                        assert(p >= 0);
                        assert(m2[p] == m[p]);
                        assert(m2[p].0 == x);
                    }
                }
            }
        }
    }
}

} // verus!

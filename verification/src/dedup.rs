//! Collapsing duplicate search results: results with the same content
//! (whitespace aside) collapse into the best-scored one, then results whose
//! word sets are near-identical (Jaccard similarity above 0.85) collapse into
//! the better-ranked one. Scores are given as integer keys that order the
//! results as their scores do.
use vstd::prelude::*;

use crate::search::{normalize_content, spec_normalize};
use crate::text::{chars_eq, split_whitespace_chars, split_ws, to_chars, views, ws_words};

verus! {

// ─── Near-identical word sets ────────────────────────────────────────────────

/// The set of whitespace-separated words of `s`.
pub open spec fn word_set(s: Seq<char>) -> Set<Seq<char>> {
    ws_words(s).to_set()
}

/// The word sets of `a` and `b` have Jaccard similarity above 0.85:
/// |A ∩ B| / |A ∪ B| > 17/20.
pub open spec fn near_duplicate(a: Seq<char>, b: Seq<char>) -> bool {
    let wa = word_set(a);
    let wb = word_set(b);
    20 * wa.intersect(wb).len() > 17 * wa.union(wb).len()
}

fn contains_word(ws: &Vec<Vec<char>>, w: &Vec<char>) -> (r: bool)
    ensures
        r == views(ws@).contains(w@),
{
    let mut i: usize = 0;
    while i < ws.len()
        invariant
            i <= ws.len(),
            forall|k: int| 0 <= k < i ==> #[trigger] views(ws@)[k] != w@,
        decreases ws.len() - i,
    {
        if chars_eq(&ws[i], w) {
            assert(views(ws@)[i as int] == w@);
            return true;
        }
        i = i + 1;
    }
    false
}

fn copy_chars(v: &Vec<char>) -> (r: Vec<char>)
    ensures
        r@ == v@,
{
    let mut r: Vec<char> = Vec::new();
    let mut i: usize = 0;
    while i < v.len()
        invariant
            i <= v.len(),
            r@ == v@.take(i as int),
        decreases v.len() - i,
    {
        r.push(v[i]);
        assert(r@ =~= v@.take(i + 1));
        i = i + 1;
    }
    assert(v@.take(v.len() as int) =~= v@);
    r
}

/// Each word once, in order of first occurrence.
fn distinct_words(ws: &Vec<Vec<char>>) -> (r: Vec<Vec<char>>)
    ensures
        views(r@).no_duplicates(),
        views(r@).to_set() == views(ws@).to_set(),
{
    broadcast use Seq::lemma_to_set_insert_commutes;
    let mut r: Vec<Vec<char>> = Vec::new();
    let mut i: usize = 0;
    while i < ws.len()
        invariant
            i <= ws.len(),
            views(r@).no_duplicates(),
            views(r@).to_set() == views(ws@).take(i as int).to_set(),
        decreases ws.len() - i,
    {
        let ghost before = views(r@);
        let ghost pre = views(ws@).take(i as int);
        assert(views(ws@).take(i + 1) =~= pre + seq![views(ws@)[i as int]]);
        proof {
            Seq::lemma_to_set_insert_commutes(pre, views(ws@)[i as int]);
            Seq::lemma_to_set_insert_commutes(before, views(ws@)[i as int]);
        }
        if !contains_word(&r, &ws[i]) {
            r.push(copy_chars(&ws[i]));
            assert(views(r@) =~= before + seq![views(ws@)[i as int]]);
            assert forall|p: int, q: int| 0 <= p < q < views(r@).len() implies views(r@)[p] != views(r@)[q] by {
                if q == views(r@).len() - 1 {
                    assert(before.contains(before[p]));
                } else {
                    assert(before[p] != before[q]);
                }
            }
        } else {
            assert(before.to_set().contains(views(ws@)[i as int]));
            assert(before.to_set().insert(views(ws@)[i as int]) =~= before.to_set());
        }
        i = i + 1;
    }
    assert(views(ws@).take(ws.len() as int) =~= views(ws@));
    r
}

/// The number of words of `a` (each once) that `b` holds, with a proof that
/// it is the size of the intersection of their sets.
fn shared_count(a: &Vec<Vec<char>>, b: &Vec<Vec<char>>) -> (r: usize)
    requires
        views(a@).no_duplicates(),
    ensures
        r as nat == views(a@).to_set().intersect(views(b@).to_set()).len(),
{
    broadcast use Seq::lemma_to_set_insert_commutes;
    let ghost bs = views(b@).to_set();
    let ghost mut shared: Seq<Seq<char>> = Seq::empty();
    let mut n: usize = 0;
    let mut i: usize = 0;
    while i < a.len()
        invariant
            i <= a.len(),
            views(a@).no_duplicates(),
            bs == views(b@).to_set(),
            n as nat == shared.len(),
            n <= i,
            shared.no_duplicates(),
            forall|k: int| 0 <= k < shared.len() ==> views(a@).take(i as int).contains(#[trigger] shared[k]),
            shared.to_set() == views(a@).take(i as int).to_set().intersect(bs),
        decreases a.len() - i,
    {
        let ghost pre = views(a@).take(i as int);
        let ghost w = views(a@)[i as int];
        assert(views(a@).take(i + 1) =~= pre + seq![w]);
        assert(!pre.contains(w)) by {
            if pre.contains(w) {
                let k = choose|k: int| 0 <= k < pre.len() && pre[k] == w;
                assert(views(a@)[k] == views(a@)[i as int]);
            }
        }
        if contains_word(b, &a[i]) {
            proof {
                let old_shared = shared;
                shared = shared + seq![w];
                Seq::lemma_to_set_insert_commutes(old_shared, w);
                Seq::lemma_to_set_insert_commutes(pre, w);
                assert(bs.contains(w));
                assert(shared.to_set() =~= old_shared.to_set().insert(w));
                assert((pre + seq![w]).to_set().intersect(bs) =~= pre.to_set().intersect(bs).insert(w));
                assert forall|p: int, q: int| 0 <= p < q < shared.len() implies shared[p] != shared[q] by {
                    if q == shared.len() - 1 {
                        assert(pre.contains(old_shared[p]));
                    } else {
                        assert(old_shared[p] != old_shared[q]);
                    }
                }
                assert forall|k: int| 0 <= k < shared.len() implies (pre + seq![w]).contains(#[trigger] shared[k]) by {
                    if k < old_shared.len() {
                        assert(pre.contains(old_shared[k]));
                        let m = choose|m: int| 0 <= m < pre.len() && pre[m] == old_shared[k];
                        assert((pre + seq![w])[m] == pre[m]);
                    } else {
                        assert((pre + seq![w])[pre.len() as int] == w);
                    }
                }
            }
            n = n + 1;
        } else {
            proof {
                assert(!bs.contains(w));
                Seq::lemma_to_set_insert_commutes(pre, w);
                assert((pre + seq![w]).to_set().intersect(bs) =~= pre.to_set().intersect(bs));
                assert forall|k: int| 0 <= k < shared.len() implies (pre + seq![w]).contains(#[trigger] shared[k]) by {
                    assert(pre.contains(shared[k]));
                    let m = choose|m: int| 0 <= m < pre.len() && pre[m] == shared[k];
                    assert((pre + seq![w])[m] == pre[m]);
                }
            }
        }
        i = i + 1;
    }
    proof {
        assert(views(a@).take(a.len() as int) =~= views(a@));
        shared.unique_seq_to_set();
    }
    n
}

fn append_words(out: &mut Vec<Vec<char>>, ws: &Vec<Vec<char>>)
    ensures
        views(final(out)@) == views(old(out)@) + views(ws@),
{
    let ghost start = views(out@);
    let mut i: usize = 0;
    while i < ws.len()
        invariant
            i <= ws.len(),
            views(out@) == start + views(ws@).take(i as int),
        decreases ws.len() - i,
    {
        let ghost before = views(out@);
        out.push(copy_chars(&ws[i]));
        assert(views(out@) =~= before.push(views(ws@)[i as int]));
        assert(views(ws@).take(i + 1) =~= views(ws@).take(i as int).push(views(ws@)[i as int]));
        i = i + 1;
    }
    assert(views(ws@).take(ws.len() as int) =~= views(ws@));
}

/// The number of words `a` and `b` share and the number of words in either,
/// each word counted once.
fn overlap_words(a: &Vec<Vec<char>>, b: &Vec<Vec<char>>) -> (r: (usize, usize))
    ensures
        r.0 == views(a@).to_set().intersect(views(b@).to_set()).len(),
        r.1 == views(a@).to_set().union(views(b@).to_set()).len(),
{
    let da = distinct_words(a);
    let shared = shared_count(&da, b);
    let mut both: Vec<Vec<char>> = Vec::new();
    append_words(&mut both, a);
    append_words(&mut both, b);
    let all = distinct_words(&both);
    proof {
        assert(views(both@) =~= views(a@) + views(b@));
        vstd::seq_lib::seq_to_set_distributes_over_add(views(a@), views(b@));
        views(all@).unique_seq_to_set();
    }
    (shared, all.len())
}

/// The number of whitespace-separated words `a` and `b` share, and the
/// number of words in either, each word counted once (the two sides of
/// their Jaccard similarity).
pub fn word_overlap(a: &str, b: &str) -> (r: (usize, usize))
    ensures
        r.0 == word_set(a@).intersect(word_set(b@)).len(),
        r.1 == word_set(a@).union(word_set(b@)).len(),
{
    let wa = split_whitespace_chars(&to_chars(a));
    let wb = split_whitespace_chars(&to_chars(b));
    overlap_words(&wa, &wb)
}

/// Whether the words `a` and `b` (as split from two texts) are near
/// duplicates.
fn near_duplicate_words(a: &Vec<Vec<char>>, b: &Vec<Vec<char>>) -> (r: bool)
    ensures
        r == ({
            let wa = views(a@).to_set();
            let wb = views(b@).to_set();
            20 * wa.intersect(wb).len() > 17 * wa.union(wb).len()
        }),
{
    let (shared, total) = overlap_words(a, b);
    20 * (shared as u128) > 17 * (total as u128)
}

// ─── The plan ────────────────────────────────────────────────────────────────

/// Indices as integers.
pub open spec fn ints(v: Seq<usize>) -> Seq<int> {
    v.map_values(|x: usize| x as int)
}

/// A dedup plan as (result, results folded into it) pairs of integers.
pub open spec fn plan_view(v: Seq<(usize, Vec<usize>)>) -> Seq<(int, Seq<int>)> {
    Seq::new(v.len(), |i: int| (v[i].0 as int, ints(v[i].1@)))
}

/// Among the first `n` results, the first of those whose normalized content
/// is `t` that has the highest key; -1 when there is none.
pub open spec fn best_of(keys: Seq<u64>, norms: Seq<Seq<char>>, t: Seq<char>, n: nat) -> int
    decreases n,
{
    if n == 0 {
        -1
    } else {
        let b = best_of(keys, norms, t, (n - 1) as nat);
        let i = n - 1;
        if norms[i] != t {
            b
        } else if b < 0 || keys[i] > keys[b] {
            i
        } else {
            b
        }
    }
}

/// Result `i` has content, and another result with the same content has a
/// higher key or comes first with the same key: it is folded into that one.
pub open spec fn merged_away(keys: Seq<u64>, norms: Seq<Seq<char>>, i: int) -> bool {
    norms[i].len() > 0 && best_of(keys, norms, norms[i], norms.len()) != i
}

/// The results among the first `n` that are folded into result `w` for
/// having its content, in order.
pub open spec fn merged_into(keys: Seq<u64>, norms: Seq<Seq<char>>, w: int, n: nat) -> Seq<int>
    decreases n,
{
    if n == 0 {
        Seq::empty()
    } else {
        let s = merged_into(keys, norms, w, (n - 1) as nat);
        let i = n - 1;
        if merged_away(keys, norms, i) && best_of(keys, norms, norms[i], norms.len()) == w {
            s.push(i)
        } else {
            s
        }
    }
}

/// The results among the first `n` that are not folded away, in order.
pub open spec fn kept(keys: Seq<u64>, norms: Seq<Seq<char>>, n: nat) -> Seq<int>
    decreases n,
{
    if n == 0 {
        Seq::empty()
    } else {
        let s = kept(keys, norms, (n - 1) as nat);
        if merged_away(keys, norms, n - 1) {
            s
        } else {
            s.push(n - 1)
        }
    }
}

/// Where a result with key `k` goes in a list ranked best first: after
/// every entry whose key is at least `k`.
pub open spec fn rank_pos(keys: Seq<u64>, s: Seq<int>, k: u64) -> int
    decreases s.len(),
{
    if s.len() == 0 {
        0
    } else if keys[s[0]] < k {
        0
    } else {
        1 + rank_pos(keys, s.drop_first(), k)
    }
}

/// The results ranked by key, highest first, equal keys in their order.
pub open spec fn rank(keys: Seq<u64>, s: Seq<int>) -> Seq<int>
    decreases s.len(),
{
    if s.len() == 0 {
        s
    } else {
        let t = rank(keys, s.drop_last());
        t.insert(rank_pos(keys, t, keys[s.last()]), s.last())
    }
}

/// Among the first `n` entries of the ranked list `r`, the first that is
/// not absorbed (per `flags`) and whose content is a near duplicate of
/// entry `b`'s; -1 when there is none.
pub open spec fn absorber_in(norms: Seq<Seq<char>>, r: Seq<int>, flags: Seq<bool>, b: int, n: nat) -> int
    decreases n,
{
    if n == 0 {
        -1
    } else {
        let x = absorber_in(norms, r, flags, b, (n - 1) as nat);
        let a = n - 1;
        if x >= 0 {
            x
        } else if !flags[a] && near_duplicate(norms[r[a]], norms[r[b]]) {
            a
        } else {
            -1
        }
    }
}

/// Whether each of the first `n` entries of the ranked list is absorbed by
/// an earlier entry that is not absorbed itself.
pub open spec fn absorbed_flags(norms: Seq<Seq<char>>, r: Seq<int>, n: nat) -> Seq<bool>
    decreases n,
{
    if n == 0 {
        Seq::empty()
    } else {
        let f = absorbed_flags(norms, r, (n - 1) as nat);
        f.push(absorber_in(norms, r, f, n - 1, (n - 1) as nat) >= 0)
    }
}

/// The results (by index) of the entries among the first `n` of the ranked
/// list that entry `a` absorbs, in order.
pub open spec fn absorbed_by(norms: Seq<Seq<char>>, r: Seq<int>, flags: Seq<bool>, a: int, n: nat) -> Seq<int>
    decreases n,
{
    if n == 0 {
        Seq::empty()
    } else {
        let s = absorbed_by(norms, r, flags, a, (n - 1) as nat);
        let b = n - 1;
        if flags[b] && absorber_in(norms, r, flags, b, b as nat) == a {
            s.push(r[b])
        } else {
            s
        }
    }
}

/// The entries among the first `n` of the ranked list that stay, each with
/// the results folded into it: first those of the same content, then those
/// it absorbs as near duplicates.
pub open spec fn near_pass(keys: Seq<u64>, norms: Seq<Seq<char>>, r: Seq<int>, n: nat) -> Seq<(int, Seq<int>)>
    decreases n,
{
    if n == 0 {
        Seq::empty()
    } else {
        let s = near_pass(keys, norms, r, (n - 1) as nat);
        let a = n - 1;
        let flags = absorbed_flags(norms, r, r.len());
        if flags[a] {
            s
        } else {
            s.push((r[a], merged_into(keys, norms, r[a], norms.len()) + absorbed_by(norms, r, flags, a, r.len())))
        }
    }
}

/// The contents with whitespace collapsed.
pub open spec fn normalized(contents: Seq<Seq<char>>) -> Seq<Seq<char>> {
    Seq::new(contents.len(), |i: int| spec_normalize(contents[i]))
}

/// The dedup of results with keys `keys` and contents `contents`: the
/// results that stay, best first, each with the results folded into it.
pub open spec fn spec_dedup_plan(keys: Seq<u64>, contents: Seq<Seq<char>>) -> Seq<(int, Seq<int>)> {
    let norms = normalized(contents);
    let r = rank(keys, kept(keys, norms, norms.len()));
    near_pass(keys, norms, r, r.len())
}

fn best_for(keys: &Vec<u64>, norms: &Vec<Vec<char>>, t: &Vec<char>) -> (r: Option<usize>)
    requires
        keys.len() == norms.len(),
    ensures
        match r {
            Some(b) => b < norms.len() && b as int == best_of(keys@, views(norms@), t@, norms.len() as nat),
            None => best_of(keys@, views(norms@), t@, norms.len() as nat) == -1,
        },
{
    let mut b: Option<usize> = None;
    let mut j: usize = 0;
    while j < norms.len()
        invariant
            keys.len() == norms.len(),
            j <= norms.len(),
            match b {
                Some(x) => x < j && x as int == best_of(keys@, views(norms@), t@, j as nat),
                None => best_of(keys@, views(norms@), t@, j as nat) == -1,
            },
        decreases norms.len() - j,
    {
        assert(views(norms@)[j as int] == norms@[j as int]@);
        if chars_eq(&norms[j], t) {
            match b {
                None => {
                    b = Some(j);
                },
                Some(x) => {
                    if keys[j] > keys[x] {
                        b = Some(j);
                    }
                },
            }
        }
        j = j + 1;
    }
    b
}

/// For each result: whether it is folded into another of the same content,
/// and the best result of its content.
fn exact_info(keys: &Vec<u64>, norms: &Vec<Vec<char>>) -> (r: (Vec<bool>, Vec<Option<usize>>))
    requires
        keys.len() == norms.len(),
    ensures
        r.0.len() == norms.len(),
        r.1.len() == norms.len(),
        forall|i: int| 0 <= i < norms.len() ==> #[trigger] r.0@[i] == merged_away(keys@, views(norms@), i),
        forall|i: int| 0 <= i < norms.len() ==> match #[trigger] r.1@[i] {
            Some(b) => b as int == best_of(keys@, views(norms@), views(norms@)[i], norms.len() as nat),
            None => best_of(keys@, views(norms@), views(norms@)[i], norms.len() as nat) == -1,
        },
{
    let mut away: Vec<bool> = Vec::new();
    let mut bests: Vec<Option<usize>> = Vec::new();
    let mut i: usize = 0;
    while i < norms.len()
        invariant
            keys.len() == norms.len(),
            i <= norms.len(),
            away.len() == i,
            bests.len() == i,
            forall|k: int| 0 <= k < i ==> #[trigger] away@[k] == merged_away(keys@, views(norms@), k),
            forall|k: int| 0 <= k < i ==> match #[trigger] bests@[k] {
                Some(b) => b as int == best_of(keys@, views(norms@), views(norms@)[k], norms.len() as nat),
                None => best_of(keys@, views(norms@), views(norms@)[k], norms.len() as nat) == -1,
            },
        decreases norms.len() - i,
    {
        assert(views(norms@)[i as int] == norms@[i as int]@);
        let bf = best_for(keys, norms, &norms[i]);
        let a = norms[i].len() > 0 && match bf {
            Some(b) => b != i,
            None => true,
        };
        away.push(a);
        bests.push(bf);
        i = i + 1;
    }
    (away, bests)
}

/// The results folded into `w` for having its content, in order.
fn merged_list(
    keys: &Vec<u64>,
    norms: &Vec<Vec<char>>,
    away: &Vec<bool>,
    bests: &Vec<Option<usize>>,
    w: usize,
) -> (r: Vec<usize>)
    requires
        keys.len() == norms.len(),
        away.len() == norms.len(),
        bests.len() == norms.len(),
        forall|i: int| 0 <= i < norms.len() ==> #[trigger] away@[i] == merged_away(keys@, views(norms@), i),
        forall|i: int| 0 <= i < norms.len() ==> match #[trigger] bests@[i] {
            Some(b) => b as int == best_of(keys@, views(norms@), views(norms@)[i], norms.len() as nat),
            None => best_of(keys@, views(norms@), views(norms@)[i], norms.len() as nat) == -1,
        },
    ensures
        ints(r@) == merged_into(keys@, views(norms@), w as int, norms.len() as nat),
{
    let mut r: Vec<usize> = Vec::new();
    let mut j: usize = 0;
    while j < norms.len()
        invariant
            j <= norms.len(),
            away.len() == norms.len(),
            bests.len() == norms.len(),
            forall|i: int| 0 <= i < norms.len() ==> #[trigger] away@[i] == merged_away(keys@, views(norms@), i),
            forall|i: int| 0 <= i < norms.len() ==> match #[trigger] bests@[i] {
                Some(b) => b as int == best_of(keys@, views(norms@), views(norms@)[i], norms.len() as nat),
                None => best_of(keys@, views(norms@), views(norms@)[i], norms.len() as nat) == -1,
            },
            ints(r@) == merged_into(keys@, views(norms@), w as int, j as nat),
        decreases norms.len() - j,
    {
        let ghost before = r@;
        let hit = away[j] && match bests[j] {
            Some(b) => b == w,
            None => false,
        };
        if hit {
            r.push(j);
            assert(ints(r@) =~= ints(before).push(j as int));
        }
        j = j + 1;
    }
    r
}

/// The results that are not folded away, in order.
fn kept_list(keys: &Vec<u64>, norms: &Vec<Vec<char>>, away: &Vec<bool>) -> (r: Vec<usize>)
    requires
        away.len() == norms.len(),
        forall|i: int| 0 <= i < norms.len() ==> #[trigger] away@[i] == merged_away(keys@, views(norms@), i),
    ensures
        ints(r@) == kept(keys@, views(norms@), norms.len() as nat),
        forall|k: int| 0 <= k < r.len() ==> #[trigger] r@[k] < norms.len(),
{
    let mut r: Vec<usize> = Vec::new();
    let mut j: usize = 0;
    while j < norms.len()
        invariant
            j <= norms.len(),
            away.len() == norms.len(),
            forall|i: int| 0 <= i < norms.len() ==> #[trigger] away@[i] == merged_away(keys@, views(norms@), i),
            ints(r@) == kept(keys@, views(norms@), j as nat),
            forall|k: int| 0 <= k < r.len() ==> #[trigger] r@[k] < j,
        decreases norms.len() - j,
    {
        let ghost before = r@;
        if !away[j] {
            r.push(j);
            assert(ints(r@) =~= ints(before).push(j as int));
        }
        j = j + 1;
    }
    r
}

fn rank_position(keys: &Vec<u64>, out: &Vec<usize>, k: u64) -> (p: usize)
    requires
        forall|q: int| 0 <= q < out.len() ==> #[trigger] out@[q] < keys.len(),
    ensures
        p <= out.len(),
        p as int == rank_pos(keys@, ints(out@), k),
{
    let mut p: usize = 0;
    assert(ints(out@).skip(0) =~= ints(out@));
    while p < out.len() && keys[out[p]] >= k
        invariant
            p <= out.len(),
            forall|q: int| 0 <= q < out.len() ==> #[trigger] out@[q] < keys.len(),
            rank_pos(keys@, ints(out@), k) == p + rank_pos(keys@, ints(out@).skip(p as int), k),
        decreases out.len() - p,
    {
        proof {
            let sk = ints(out@).skip(p as int);
            assert(sk.drop_first() =~= ints(out@).skip(p + 1));
            assert(sk[0] == out@[p as int] as int);
        }
        p = p + 1;
    }
    proof {
        let sk = ints(out@).skip(p as int);
        if p < out.len() {
            assert(sk[0] == out@[p as int] as int);
        } else {
            assert(sk.len() == 0);
        }
    }
    p
}

/// The results ranked by key, highest first, equal keys in their order.
fn rank_indices(keys: &Vec<u64>, s: &Vec<usize>) -> (r: Vec<usize>)
    requires
        forall|q: int| 0 <= q < s.len() ==> #[trigger] s@[q] < keys.len(),
    ensures
        ints(r@) == rank(keys@, ints(s@)),
        forall|q: int| 0 <= q < r.len() ==> #[trigger] r@[q] < keys.len(),
{
    let mut out: Vec<usize> = Vec::new();
    let mut i: usize = 0;
    while i < s.len()
        invariant
            i <= s.len(),
            forall|q: int| 0 <= q < s.len() ==> #[trigger] s@[q] < keys.len(),
            forall|q: int| 0 <= q < out.len() ==> #[trigger] out@[q] < keys.len(),
            ints(out@) == rank(keys@, ints(s@).take(i as int)),
        decreases s.len() - i,
    {
        let x = s[i];
        let p = rank_position(keys, &out, keys[x]);
        let ghost before = out@;
        out.insert(p, x);
        proof {
            let t = ints(s@).take(i + 1);
            assert(t.drop_last() =~= ints(s@).take(i as int));
            assert(t.last() == x as int);
            assert(ints(out@) =~= ints(before).insert(p as int, x as int));
            assert forall|q: int| 0 <= q < out.len() implies #[trigger] out@[q] < keys.len() by {
                if q < p {
                    assert(out@[q] == before[q]);
                } else if q > p {
                    assert(out@[q] == before[q - 1]);
                }
            }
        }
        i = i + 1;
    }
    assert(ints(s@).take(s.len() as int) =~= ints(s@));
    out
}

/// Which entry absorbs `b` depends only on the flags of the entries before
/// the bound.
proof fn lemma_absorber_frame(norms: Seq<Seq<char>>, r: Seq<int>, f1: Seq<bool>, f2: Seq<bool>, b: int, n: nat)
    requires
        n <= f1.len(),
        n <= f2.len(),
        forall|i: int| 0 <= i < n ==> f1[i] == f2[i],
    ensures
        absorber_in(norms, r, f1, b, n) == absorber_in(norms, r, f2, b, n),
    decreases n,
{
    if n > 0 {
        lemma_absorber_frame(norms, r, f1, f2, b, (n - 1) as nat);
    }
}

/// The words of each entry of the ranked list.
fn ranked_words(norms: &Vec<Vec<char>>, r: &Vec<usize>) -> (w: Vec<Vec<Vec<char>>>)
    requires
        forall|q: int| 0 <= q < r.len() ==> #[trigger] r@[q] < norms.len(),
    ensures
        w.len() == r.len(),
        forall|a: int| 0 <= a < r.len() ==> views(#[trigger] w@[a]@) == ws_words(views(norms@)[r@[a] as int]),
{
    let mut w: Vec<Vec<Vec<char>>> = Vec::new();
    let mut a: usize = 0;
    while a < r.len()
        invariant
            a <= r.len(),
            w.len() == a,
            forall|q: int| 0 <= q < r.len() ==> #[trigger] r@[q] < norms.len(),
            forall|k: int| 0 <= k < a ==> views(#[trigger] w@[k]@) == ws_words(views(norms@)[r@[k] as int]),
        decreases r.len() - a,
    {
        assert(views(norms@)[r@[a as int] as int] == norms@[r@[a as int] as int]@);
        w.push(split_whitespace_chars(&norms[r[a]]));
        a = a + 1;
    }
    w
}

/// For each entry of the ranked list: whether an earlier entry absorbs it,
/// and which.
fn near_info(norms: &Vec<Vec<char>>, r: &Vec<usize>) -> (res: (Vec<bool>, Vec<Option<usize>>))
    requires
        forall|q: int| 0 <= q < r.len() ==> #[trigger] r@[q] < norms.len(),
    ensures
        res.0@ == absorbed_flags(views(norms@), ints(r@), r.len() as nat),
        res.1.len() == r.len(),
        forall|b: int| 0 <= b < r.len() ==> match #[trigger] res.1@[b] {
            Some(a) => a as int == absorber_in(views(norms@), ints(r@), res.0@, b, b as nat),
            None => absorber_in(views(norms@), ints(r@), res.0@, b, b as nat) == -1,
        },
{
    let ghost nv = views(norms@);
    let ghost rv = ints(r@);
    let words = ranked_words(norms, r);
    let mut flags: Vec<bool> = Vec::new();
    let mut absorbers: Vec<Option<usize>> = Vec::new();
    let mut b: usize = 0;
    while b < r.len()
        invariant
            b <= r.len(),
            nv == views(norms@),
            rv == ints(r@),
            words.len() == r.len(),
            forall|q: int| 0 <= q < r.len() ==> #[trigger] r@[q] < norms.len(),
            forall|k: int| 0 <= k < r.len() ==> views(#[trigger] words@[k]@) == ws_words(nv[r@[k] as int]),
            flags@ == absorbed_flags(nv, rv, b as nat),
            flags.len() == b,
            absorbers.len() == b,
            forall|q: int| 0 <= q < b ==> match #[trigger] absorbers@[q] {
                Some(a) => a as int == absorber_in(nv, rv, flags@, q, q as nat),
                None => absorber_in(nv, rv, flags@, q, q as nat) == -1,
            },
        decreases r.len() - b,
    {
        let mut found: Option<usize> = None;
        let mut a: usize = 0;
        while a < b
            invariant
                a <= b < r.len(),
                nv == views(norms@),
                rv == ints(r@),
                words.len() == r.len(),
                forall|k: int| 0 <= k < r.len() ==> views(#[trigger] words@[k]@) == ws_words(nv[r@[k] as int]),
                flags@.len() == b,
                match found {
                    Some(x) => x < a && x as int == absorber_in(nv, rv, flags@, b as int, a as nat),
                    None => absorber_in(nv, rv, flags@, b as int, a as nat) == -1,
                },
            decreases b - a,
        {
            if found.is_none() && !flags[a] {
                let near = near_duplicate_words(&words[a], &words[b]);
                assert(rv[a as int] == r@[a as int] as int && rv[b as int] == r@[b as int] as int);
                if near {
                    found = Some(a);
                }
            }
            a = a + 1;
        }
        let ghost before = flags@;
        flags.push(found.is_some());
        absorbers.push(found);
        proof {
            assert forall|q: int| 0 <= q <= b implies match #[trigger] absorbers@[q] {
                Some(a) => a as int == absorber_in(nv, rv, flags@, q, q as nat),
                None => absorber_in(nv, rv, flags@, q, q as nat) == -1,
            } by {
                lemma_absorber_frame(nv, rv, before, flags@, q, q as nat);
            }
        }
        b = b + 1;
    }
    (flags, absorbers)
}

/// The scores' keys of the results.
pub open spec fn key_seq(results: Seq<(u64, String)>) -> Seq<u64> {
    Seq::new(results.len(), |i: int| results[i].0)
}

/// The contents of the results.
pub open spec fn content_seq(results: Seq<(u64, String)>) -> Seq<Seq<char>> {
    Seq::new(results.len(), |i: int| results[i].1@)
}

/// How duplicate search results collapse. Each result is given by the key of
/// its score (keys order results as their scores do) and its content.
///
/// First, results whose contents are equal once whitespace is collapsed
/// (empty contents aside) fold into the first of them with the highest
/// key; the rest are ranked by key, highest first, equal keys in their
/// order. Then, down that ranking, each result that has not been folded
/// absorbs every later one whose word set is near-identical to its own
/// (Jaccard similarity above 0.85).
///
/// The plan lists the results that stay, in ranked order, each with the
/// indices of the results folded into it: those of equal content in input
/// order, then those absorbed as near duplicates in ranked order.
pub fn dedup_plan(results: &Vec<(u64, String)>) -> (plan: Vec<(usize, Vec<usize>)>)
    ensures
        plan_view(plan@) == spec_dedup_plan(key_seq(results@), content_seq(results@)),
{
    let ghost contents = content_seq(results@);
    let mut keys: Vec<u64> = Vec::new();
    let mut norms: Vec<Vec<char>> = Vec::new();
    let mut i: usize = 0;
    while i < results.len()
        invariant
            i <= results.len(),
            keys@ == key_seq(results@).take(i as int),
            views(norms@) == normalized(contents).take(i as int),
            contents == content_seq(results@),
        decreases results.len() - i,
    {
        let ghost before = norms@;
        keys.push(results[i].0);
        let nc = normalize_content(results[i].1.as_str());
        norms.push(to_chars(nc.as_str()));
        assert(keys@ =~= key_seq(results@).take(i + 1));
        assert(views(norms@) =~= views(before).push(spec_normalize(contents[i as int])));
        assert(views(norms@) =~= normalized(contents).take(i + 1));
        i = i + 1;
    }
    assert(keys@ =~= key_seq(results@));
    assert(views(norms@) =~= normalized(contents));
    let ghost kv = keys@;
    let ghost nv = views(norms@);
    let (away, bests) = exact_info(&keys, &norms);
    let stay = kept_list(&keys, &norms, &away);
    let ranked = rank_indices(&keys, &stay);
    let ghost rv = ints(ranked@);
    let (flags, absorbers) = near_info(&norms, &ranked);
    let mut plan: Vec<(usize, Vec<usize>)> = Vec::new();
    let mut a: usize = 0;
    while a < ranked.len()
        invariant
            a <= ranked.len(),
            kv == keys@,
            nv == views(norms@),
            rv == ints(ranked@),
            keys.len() == norms.len(),
            away.len() == norms.len(),
            bests.len() == norms.len(),
            forall|i: int| 0 <= i < norms.len() ==> #[trigger] away@[i] == merged_away(keys@, views(norms@), i),
            forall|i: int| 0 <= i < norms.len() ==> match #[trigger] bests@[i] {
                Some(b) => b as int == best_of(keys@, views(norms@), views(norms@)[i], norms.len() as nat),
                None => best_of(keys@, views(norms@), views(norms@)[i], norms.len() as nat) == -1,
            },
            flags@ == absorbed_flags(nv, rv, ranked.len() as nat),
            absorbers.len() == ranked.len(),
            forall|b: int| 0 <= b < ranked.len() ==> match #[trigger] absorbers@[b] {
                Some(x) => x as int == absorber_in(nv, rv, flags@, b, b as nat),
                None => absorber_in(nv, rv, flags@, b, b as nat) == -1,
            },
            plan_view(plan@) == near_pass(kv, nv, rv, a as nat),
        decreases ranked.len() - a,
    {
        assert(flags@.len() == ranked.len()) by {
            lemma_flags_len(nv, rv, ranked.len() as nat);
        }
        if !flags[a] {
            let mut folded = merged_list(&keys, &norms, &away, &bests, ranked[a]);
            let ghost merged = ints(folded@);
            let mut b: usize = 0;
            while b < ranked.len()
                invariant
                    b <= ranked.len(),
                    a < ranked.len(),
                    rv == ints(ranked@),
                    flags@.len() == ranked.len(),
                    absorbers.len() == ranked.len(),
                    forall|q: int| 0 <= q < ranked.len() ==> match #[trigger] absorbers@[q] {
                        Some(x) => x as int == absorber_in(nv, rv, flags@, q, q as nat),
                        None => absorber_in(nv, rv, flags@, q, q as nat) == -1,
                    },
                    ints(folded@) == merged + absorbed_by(nv, rv, flags@, a as int, b as nat),
                decreases ranked.len() - b,
            {
                let hit = flags[b] && match absorbers[b] {
                    Some(x) => x == a,
                    None => false,
                };
                let ghost before = folded@;
                if hit {
                    folded.push(ranked[b]);
                    assert(ints(folded@) =~= ints(before).push(ranked@[b as int] as int));
                }
                assert(absorbed_by(nv, rv, flags@, a as int, (b + 1) as nat) == if hit {
                    absorbed_by(nv, rv, flags@, a as int, b as nat).push(rv[b as int])
                } else {
                    absorbed_by(nv, rv, flags@, a as int, b as nat)
                });
                b = b + 1;
            }
            let ghost before = plan@;
            plan.push((ranked[a], folded));
            assert(plan_view(plan@) =~= plan_view(before).push((rv[a as int], ints(folded@))));
        }
        a = a + 1;
    }
    plan
}

proof fn lemma_flags_len(norms: Seq<Seq<char>>, r: Seq<int>, n: nat)
    ensures
        absorbed_flags(norms, r, n).len() == n,
    decreases n,
{
    if n > 0 {
        lemma_flags_len(norms, r, (n - 1) as nat);
    }
}

// ─── Properties of the plan ──────────────────────────────────────────────────

proof fn lemma_best_of(keys: Seq<u64>, norms: Seq<Seq<char>>, t: Seq<char>, n: nat)
    requires
        n <= norms.len(),
    ensures
        -1 <= best_of(keys, norms, t, n) < n,
        best_of(keys, norms, t, n) >= 0 ==> norms[best_of(keys, norms, t, n)] == t,
        best_of(keys, norms, t, n) >= 0 ==> forall|j: int| 0 <= j < n && norms[j] == t
            ==> keys[j] <= keys[best_of(keys, norms, t, n)],
        best_of(keys, norms, t, n) == -1 ==> forall|j: int| 0 <= j < n ==> norms[j] != t,
    decreases n,
{
    if n > 0 {
        lemma_best_of(keys, norms, t, (n - 1) as nat);
    }
}

proof fn lemma_merged_into(keys: Seq<u64>, norms: Seq<Seq<char>>, w: int, n: nat)
    requires
        n <= norms.len(),
    ensures
        forall|k: int| 0 <= k < merged_into(keys, norms, w, n).len() ==> {
            let j = #[trigger] merged_into(keys, norms, w, n)[k];
            0 <= j < n && merged_away(keys, norms, j) && best_of(keys, norms, norms[j], norms.len()) == w
        },
    decreases n,
{
    if n > 0 {
        lemma_merged_into(keys, norms, w, (n - 1) as nat);
        let s0 = merged_into(keys, norms, w, (n - 1) as nat);
        let s1 = merged_into(keys, norms, w, n);
        assert forall|k: int| 0 <= k < s1.len() implies {
            let j = #[trigger] s1[k];
            0 <= j < n && merged_away(keys, norms, j) && best_of(keys, norms, norms[j], norms.len()) == w
        } by {
            if k < s0.len() {
                assert(s1[k] == s0[k]);
            }
        }
    }
}

proof fn lemma_kept(keys: Seq<u64>, norms: Seq<Seq<char>>, n: nat)
    requires
        n <= norms.len(),
    ensures
        forall|k: int| 0 <= k < kept(keys, norms, n).len() ==> {
            let i = #[trigger] kept(keys, norms, n)[k];
            0 <= i < n && !merged_away(keys, norms, i)
        },
        forall|i: int| 0 <= i < n && !merged_away(keys, norms, i) ==> kept(keys, norms, n).contains(i),
    decreases n,
{
    if n > 0 {
        lemma_kept(keys, norms, (n - 1) as nat);
        let s = kept(keys, norms, (n - 1) as nat);
        assert forall|i: int| 0 <= i < n && !merged_away(keys, norms, i) implies kept(keys, norms, n).contains(i) by {
            if i < n - 1 {
                let k = choose|k: int| 0 <= k < s.len() && s[k] == i;
                if !merged_away(keys, norms, n - 1) {
                    assert(s.push(n - 1)[k] == i);
                }
            } else {
                assert(s.push(n - 1)[s.len() as int] == i);
            }
        }
    }
}

proof fn lemma_rank_pos(keys: Seq<u64>, t: Seq<int>, k: u64)
    ensures
        0 <= rank_pos(keys, t, k) <= t.len(),
        forall|q: int| 0 <= q < rank_pos(keys, t, k) ==> keys[#[trigger] t[q]] >= k,
        rank_pos(keys, t, k) < t.len() ==> keys[t[rank_pos(keys, t, k)]] < k,
    decreases t.len(),
{
    if t.len() > 0 && keys[t[0]] >= k {
        lemma_rank_pos(keys, t.drop_first(), k);
        assert forall|q: int| 0 <= q < rank_pos(keys, t, k) implies keys[#[trigger] t[q]] >= k by {
            if q > 0 {
                assert(t[q] == t.drop_first()[q - 1]);
            }
        }
        if rank_pos(keys, t, k) < t.len() {
            assert(t[rank_pos(keys, t, k)] == t.drop_first()[rank_pos(keys, t.drop_first(), k)]);
        }
    }
}

/// Ranking sorts by key, highest first, and keeps the same entries.
proof fn lemma_rank(keys: Seq<u64>, s: Seq<int>)
    ensures
        rank(keys, s).len() == s.len(),
        forall|p: int, q: int| 0 <= p < q < s.len() ==> keys[#[trigger] rank(keys, s)[p]] >= keys[#[trigger] rank(keys, s)[q]],
        forall|x: int| #![trigger rank(keys, s).contains(x)] #![trigger s.contains(x)]
            rank(keys, s).contains(x) <==> s.contains(x),
        s.no_duplicates() ==> rank(keys, s).no_duplicates(),
    decreases s.len(),
{
    if s.len() > 0 {
        let d = s.drop_last();
        lemma_rank(keys, d);
        let t = rank(keys, d);
        let x = s.last();
        let pos = rank_pos(keys, t, keys[x]);
        lemma_rank_pos(keys, t, keys[x]);
        let r = t.insert(pos, x);
        assert(r == rank(keys, s));
        assert forall|p: int, q: int| 0 <= p < q < r.len() implies keys[#[trigger] r[p]] >= keys[#[trigger] r[q]] by {
            if q < pos {
                assert(r[p] == t[p] && r[q] == t[q]);
            } else if q == pos {
                assert(r[p] == t[p]);
            } else if p < pos {
                assert(r[p] == t[p] && r[q] == t[q - 1]);
            } else if p == pos {
                assert(r[q] == t[q - 1]);
                assert(keys[t[pos]] < keys[x]);
                if q - 1 > pos {
                    assert(keys[t[pos]] >= keys[t[q - 1]]);
                }
            } else {
                assert(r[p] == t[p - 1] && r[q] == t[q - 1]);
            }
        }
        assert forall|y: int| r.contains(y) <==> s.contains(y) by {
            if r.contains(y) {
                let k = choose|k: int| 0 <= k < r.len() && r[k] == y;
                if k < pos {
                    assert(t[k] == y);
                    assert(t.contains(y));
                    let m = choose|m: int| 0 <= m < d.len() && d[m] == y;
                    assert(s[m] == y);
                } else if k == pos {
                    assert(s[s.len() - 1] == y);
                } else {
                    assert(t[k - 1] == y);
                    assert(t.contains(y));
                    let m = choose|m: int| 0 <= m < d.len() && d[m] == y;
                    assert(s[m] == y);
                }
            }
            if s.contains(y) {
                let k = choose|k: int| 0 <= k < s.len() && s[k] == y;
                if k == s.len() - 1 {
                    assert(r[pos] == y);
                } else {
                    assert(d[k] == y);
                    assert(t.contains(y));
                    let m = choose|m: int| 0 <= m < t.len() && t[m] == y;
                    if m < pos {
                        assert(r[m] == y);
                    } else {
                        assert(r[m + 1] == y);
                    }
                }
            }
        }
        if s.no_duplicates() {
            assert(d.no_duplicates()) by {
                assert forall|p: int, q: int| 0 <= p < q < d.len() implies d[p] != d[q] by {
                    assert(d[p] == s[p] && d[q] == s[q]);
                }
            }
            assert(!t.contains(x)) by {
                if t.contains(x) {
                    assert(d.contains(x));
                    let m = choose|m: int| 0 <= m < d.len() && d[m] == x;
                    assert(s[m] == s[s.len() - 1]);
                }
            }
            assert forall|p: int, q: int| 0 <= p < q < r.len() implies r[p] != r[q] by {
                if p != pos && q != pos {
                    let tp = if p < pos { p } else { p - 1 };
                    let tq = if q < pos { q } else { q - 1 };
                    assert(r[p] == t[tp] && r[q] == t[tq]);
                } else if p == pos {
                    assert(r[q] == t[q - 1]);
                } else {
                    let tp = if p < pos { p } else { p - 1 };
                    assert(r[p] == t[tp]);
                }
            }
        }
    }
}

proof fn lemma_kept_increasing(keys: Seq<u64>, norms: Seq<Seq<char>>, n: nat)
    requires
        n <= norms.len(),
    ensures
        forall|p: int, q: int| 0 <= p < q < kept(keys, norms, n).len()
            ==> #[trigger] kept(keys, norms, n)[p] < #[trigger] kept(keys, norms, n)[q],
        kept(keys, norms, n).no_duplicates(),
    decreases n,
{
    if n > 0 {
        lemma_kept_increasing(keys, norms, (n - 1) as nat);
        lemma_kept(keys, norms, (n - 1) as nat);
        let s0 = kept(keys, norms, (n - 1) as nat);
        let s1 = kept(keys, norms, n);
        assert forall|p: int, q: int| 0 <= p < q < s1.len() implies #[trigger] s1[p] < #[trigger] s1[q] by {
            if q < s0.len() {
                assert(s1[p] == s0[p] && s1[q] == s0[q]);
            } else {
                assert(s1[p] == s0[p]);
                assert(0 <= s0[p] < n - 1);
            }
        }
    }
}

proof fn lemma_absorber_in(norms: Seq<Seq<char>>, r: Seq<int>, flags: Seq<bool>, b: int, n: nat)
    requires
        n <= flags.len(),
    ensures
        -1 <= absorber_in(norms, r, flags, b, n) < n,
        absorber_in(norms, r, flags, b, n) >= 0 ==> {
            let x = absorber_in(norms, r, flags, b, n);
            !flags[x] && near_duplicate(norms[r[x]], norms[r[b]])
        },
        absorber_in(norms, r, flags, b, n) == -1 ==> forall|y: int| 0 <= y < n ==>
            flags[y] || !near_duplicate(norms[#[trigger] r[y]], norms[r[b]]),
    decreases n,
{
    if n > 0 {
        lemma_absorber_in(norms, r, flags, b, (n - 1) as nat);
    }
}

proof fn lemma_flags_prefix(norms: Seq<Seq<char>>, r: Seq<int>, m: nat, n: nat)
    requires
        n <= m,
    ensures
        absorbed_flags(norms, r, m).take(n as int) == absorbed_flags(norms, r, n),
    decreases m,
{
    lemma_flags_len(norms, r, m);
    lemma_flags_len(norms, r, n);
    if m == n {
        assert(absorbed_flags(norms, r, m).take(n as int) =~= absorbed_flags(norms, r, n));
    } else {
        lemma_flags_prefix(norms, r, (m - 1) as nat, n);
        lemma_flags_len(norms, r, (m - 1) as nat);
        assert(absorbed_flags(norms, r, m).take(n as int) =~= absorbed_flags(norms, r, (m - 1) as nat).take(n as int));
    }
}

/// An entry is absorbed exactly when some earlier entry absorbs it.
proof fn lemma_flag_at(norms: Seq<Seq<char>>, r: Seq<int>, m: nat, b: int)
    requires
        0 <= b < m,
    ensures
        absorbed_flags(norms, r, m)[b] == (absorber_in(norms, r, absorbed_flags(norms, r, m), b, b as nat) >= 0),
{
    let f = absorbed_flags(norms, r, m);
    lemma_flags_len(norms, r, m);
    lemma_flags_len(norms, r, b as nat);
    lemma_flags_prefix(norms, r, m, (b + 1) as nat);
    lemma_flags_prefix(norms, r, m, b as nat);
    assert(f[b] == f.take(b + 1)[b]);
    let fb = absorbed_flags(norms, r, b as nat);
    assert(absorbed_flags(norms, r, (b + 1) as nat) == fb.push(absorber_in(norms, r, fb, b, b as nat) >= 0));
    assert forall|i: int| 0 <= i < b implies fb[i] == f[i] by {
        assert(f.take(b as int)[i] == f[i]);
    }
    lemma_absorber_frame(norms, r, fb, f, b, b as nat);
}

/// The positions among the first `n` whose flag is down, in order.
pub open spec fn stay_positions(flags: Seq<bool>, n: nat) -> Seq<int>
    decreases n,
{
    if n == 0 {
        Seq::empty()
    } else {
        let s = stay_positions(flags, (n - 1) as nat);
        if flags[n - 1] {
            s
        } else {
            s.push(n - 1)
        }
    }
}

proof fn lemma_stay_positions(flags: Seq<bool>, n: nat)
    requires
        n <= flags.len(),
    ensures
        forall|p: int| 0 <= p < stay_positions(flags, n).len() ==> {
            let a = #[trigger] stay_positions(flags, n)[p];
            0 <= a < n && !flags[a]
        },
        forall|p: int, q: int| 0 <= p < q < stay_positions(flags, n).len()
            ==> #[trigger] stay_positions(flags, n)[p] < #[trigger] stay_positions(flags, n)[q],
        forall|a: int| 0 <= a < n && !flags[a] ==> #[trigger] stay_positions(flags, n).contains(a),
    decreases n,
{
    if n > 0 {
        lemma_stay_positions(flags, (n - 1) as nat);
        let s0 = stay_positions(flags, (n - 1) as nat);
        let s1 = stay_positions(flags, n);
        assert forall|p: int| 0 <= p < s1.len() implies {
            let a = #[trigger] s1[p];
            0 <= a < n && !flags[a]
        } by {
            if p < s0.len() {
                assert(s1[p] == s0[p]);
            }
        }
        assert forall|p: int, q: int| 0 <= p < q < s1.len() implies #[trigger] s1[p] < #[trigger] s1[q] by {
            assert(s1[p] == s0[p]);
            if q < s0.len() {
                assert(s1[q] == s0[q]);
            }
        }
        assert forall|a: int| 0 <= a < n && !flags[a] implies #[trigger] s1.contains(a) by {
            if a < n - 1 {
                assert(s0.contains(a));
                let k = choose|k: int| 0 <= k < s0.len() && s0[k] == a;
                assert(s1[k] == a);
            } else {
                assert(s1[s0.len() as int] == a);
            }
        }
    }
}

proof fn lemma_near_pass(keys: Seq<u64>, norms: Seq<Seq<char>>, r: Seq<int>, n: nat)
    requires
        n <= r.len(),
    ensures
        near_pass(keys, norms, r, n).len() == stay_positions(absorbed_flags(norms, r, r.len()), n).len(),
        forall|p: int| 0 <= p < near_pass(keys, norms, r, n).len() ==> {
            let f = absorbed_flags(norms, r, r.len());
            let a = stay_positions(f, n)[p];
            #[trigger] near_pass(keys, norms, r, n)[p]
                == (r[a], merged_into(keys, norms, r[a], norms.len()) + absorbed_by(norms, r, f, a, r.len()))
        },
    decreases n,
{
    if n > 0 {
        lemma_near_pass(keys, norms, r, (n - 1) as nat);
        let f = absorbed_flags(norms, r, r.len());
        let s0 = near_pass(keys, norms, r, (n - 1) as nat);
        let s1 = near_pass(keys, norms, r, n);
        let sp0 = stay_positions(f, (n - 1) as nat);
        let sp1 = stay_positions(f, n);
        assert forall|p: int| 0 <= p < s1.len() implies {
            let a = sp1[p];
            #[trigger] s1[p] == (r[a], merged_into(keys, norms, r[a], norms.len()) + absorbed_by(norms, r, f, a, r.len()))
        } by {
            if p < s0.len() {
                assert(s1[p] == s0[p]);
                assert(sp1[p] == sp0[p]);
            }
        }
    }
}

proof fn lemma_absorbed_by(norms: Seq<Seq<char>>, r: Seq<int>, flags: Seq<bool>, a: int, n: nat)
    ensures
        forall|k: int| 0 <= k < absorbed_by(norms, r, flags, a, n).len() ==> exists|b: int|
            0 <= b < n && flags[b] && absorber_in(norms, r, flags, b, b as nat) == a
                && #[trigger] absorbed_by(norms, r, flags, a, n)[k] == r[b],
    decreases n,
{
    if n > 0 {
        lemma_absorbed_by(norms, r, flags, a, (n - 1) as nat);
        let s0 = absorbed_by(norms, r, flags, a, (n - 1) as nat);
        let s1 = absorbed_by(norms, r, flags, a, n);
        assert forall|k: int| 0 <= k < s1.len() implies exists|b: int|
            0 <= b < n && flags[b] && absorber_in(norms, r, flags, b, b as nat) == a && #[trigger] s1[k] == r[b] by {
            if k < s0.len() {
                assert(s1[k] == s0[k]);
                let b = choose|b: int| 0 <= b < n - 1 && flags[b] && absorber_in(norms, r, flags, b, b as nat) == a
                    && s0[k] == r[b];
                assert(0 <= b < n && flags[b] && absorber_in(norms, r, flags, b, b as nat) == a && s1[k] == r[b]);
            } else {
                let b = n - 1;
                assert(0 <= b < n && flags[b] && absorber_in(norms, r, flags, b, b as nat) == a && s1[k] == r[b]);
            }
        }
    }
}

/// What the plan is built from, with the facts the laws below rest on.
proof fn lemma_plan_parts(keys: Seq<u64>, contents: Seq<Seq<char>>)
    requires
        keys.len() == contents.len(),
    ensures
        ({
            let norms = normalized(contents);
            let r = rank(keys, kept(keys, norms, norms.len()));
            let f = absorbed_flags(norms, r, r.len());
            let sp = stay_positions(f, r.len());
            let plan = spec_dedup_plan(keys, contents);
            &&& f.len() == r.len()
            &&& plan.len() == sp.len()
            &&& forall|p: int| 0 <= p < plan.len() ==> {
                let a = sp[p];
                &&& 0 <= a < r.len()
                &&& !f[a]
                &&& #[trigger] plan[p] == (r[a], merged_into(keys, norms, r[a], norms.len()) + absorbed_by(norms, r, f, a, r.len()))
            }
            &&& forall|p: int, q: int| 0 <= p < q < sp.len() ==> #[trigger] sp[p] < #[trigger] sp[q]
            &&& forall|a: int| 0 <= a < r.len() && !f[a] ==> #[trigger] sp.contains(a)
            &&& forall|a: int, b: int| 0 <= a < b < r.len() ==> keys[#[trigger] r[a]] >= keys[#[trigger] r[b]]
            &&& forall|a: int| 0 <= a < r.len() ==> 0 <= #[trigger] r[a] < norms.len() && !merged_away(keys, norms, r[a])
            &&& forall|i: int| 0 <= i < norms.len() && !merged_away(keys, norms, i) ==> #[trigger] r.contains(i)
            &&& r.no_duplicates()
        }),
{
    let norms = normalized(contents);
    let ks = kept(keys, norms, norms.len());
    let r = rank(keys, ks);
    let f = absorbed_flags(norms, r, r.len());
    lemma_kept(keys, norms, norms.len());
    lemma_kept_increasing(keys, norms, norms.len());
    lemma_rank(keys, ks);
    lemma_flags_len(norms, r, r.len());
    lemma_near_pass(keys, norms, r, r.len());
    lemma_stay_positions(f, r.len());
    assert forall|a: int| 0 <= a < r.len() implies 0 <= #[trigger] r[a] < norms.len() && !merged_away(keys, norms, r[a]) by {
        assert(r.contains(r[a]));
        assert(ks.contains(r[a]));
        let k = choose|k: int| 0 <= k < ks.len() && ks[k] == r[a];
        assert(ks[k] == r[a]);
    }
    assert forall|i: int| 0 <= i < norms.len() && !merged_away(keys, norms, i) implies #[trigger] r.contains(i) by {
        assert(ks.contains(i));
    }
}

/// Law: the results that stay come best first (by key), and every index in
/// the plan names one of the results.
pub proof fn law_dedup_ranked(keys: Seq<u64>, contents: Seq<Seq<char>>)
    requires
        keys.len() == contents.len(),
    ensures
        forall|p: int, q: int| 0 <= p < q < spec_dedup_plan(keys, contents).len()
            ==> keys[#[trigger] spec_dedup_plan(keys, contents)[p].0] >= keys[#[trigger] spec_dedup_plan(keys, contents)[q].0],
        forall|p: int| 0 <= p < spec_dedup_plan(keys, contents).len()
            ==> 0 <= #[trigger] spec_dedup_plan(keys, contents)[p].0 < contents.len(),
{
    lemma_plan_parts(keys, contents);
    let norms = normalized(contents);
    let r = rank(keys, kept(keys, norms, norms.len()));
    let f = absorbed_flags(norms, r, r.len());
    let sp = stay_positions(f, r.len());
    let plan = spec_dedup_plan(keys, contents);
    assert forall|p: int, q: int| 0 <= p < q < plan.len() implies keys[#[trigger] plan[p].0] >= keys[#[trigger] plan[q].0] by {
        assert(plan[p].0 == r[sp[p]] && plan[q].0 == r[sp[q]]);
        assert(sp[p] < sp[q]);
    }
    assert forall|p: int| 0 <= p < plan.len() implies 0 <= #[trigger] plan[p].0 < contents.len() by {
        assert(plan[p].0 == r[sp[p]]);
    }
}

/// Nothing is a near duplicate of a text without words.
proof fn lemma_no_words_no_duplicate(a: Seq<char>, b: Seq<char>)
    requires
        a.len() == 0 || b.len() == 0,
    ensures
        !near_duplicate(a, b),
{
    let e: Seq<char> = Seq::empty();
    assert(e =~= Seq::<char>::empty());
    assert(split_ws(e) == (Seq::<Seq<char>>::empty(), Seq::<char>::empty()));
    assert(ws_words(e).len() == 0);
    assert(word_set(e) =~= Set::<Seq<char>>::empty());
    if a.len() == 0 {
        assert(a =~= e);
        assert(word_set(a).intersect(word_set(b)) =~= Set::<Seq<char>>::empty());
    } else {
        assert(b =~= e);
        assert(word_set(a).intersect(word_set(b)) =~= Set::<Seq<char>>::empty());
    }
}

/// Law: a result is folded only into one with a key at least its own, and
/// every folded index names one of the results.
pub proof fn law_dedup_folds_lower(keys: Seq<u64>, contents: Seq<Seq<char>>)
    requires
        keys.len() == contents.len(),
    ensures
        forall|p: int, k: int| 0 <= p < spec_dedup_plan(keys, contents).len()
            && 0 <= k < spec_dedup_plan(keys, contents)[p].1.len() ==> {
                &&& 0 <= #[trigger] spec_dedup_plan(keys, contents)[p].1[k] < contents.len()
                &&& keys[spec_dedup_plan(keys, contents)[p].1[k]] <= keys[spec_dedup_plan(keys, contents)[p].0]
            },
{
    lemma_plan_parts(keys, contents);
    let norms = normalized(contents);
    let r = rank(keys, kept(keys, norms, norms.len()));
    let f = absorbed_flags(norms, r, r.len());
    let sp = stay_positions(f, r.len());
    let plan = spec_dedup_plan(keys, contents);
    assert forall|p: int, k: int| 0 <= p < plan.len() && 0 <= k < plan[p].1.len() implies {
        &&& 0 <= #[trigger] plan[p].1[k] < contents.len()
        &&& keys[plan[p].1[k]] <= keys[plan[p].0]
    } by {
        let a = sp[p];
        let w = r[a];
        let m = merged_into(keys, norms, w, norms.len());
        let ab = absorbed_by(norms, r, f, a, r.len());
        assert(plan[p] == (w, m + ab));
        if k < m.len() {
            lemma_merged_into(keys, norms, w, norms.len());
            let j = m[k];
            assert(plan[p].1[k] == j);
            lemma_best_of(keys, norms, norms[j], norms.len());
        } else {
            lemma_absorbed_by(norms, r, f, a, r.len());
            assert(plan[p].1[k] == ab[k - m.len()]);
            let b = choose|b: int| 0 <= b < r.len() && f[b] && absorber_in(norms, r, f, b, b as nat) == a
                && ab[k - m.len()] == r[b];
            lemma_absorber_in(norms, r, f, b, b as nat);
            assert(a < b);
        }
    }
}

/// Law: a result without words is never folded into another and folds
/// nothing into itself: it stays, alone.
pub proof fn law_dedup_empty_stays(keys: Seq<u64>, contents: Seq<Seq<char>>, i: int)
    requires
        keys.len() == contents.len(),
        0 <= i < contents.len(),
        spec_normalize(contents[i]).len() == 0,
    ensures
        spec_dedup_plan(keys, contents).contains((i, Seq::<int>::empty())),
{
    lemma_plan_parts(keys, contents);
    let norms = normalized(contents);
    let r = rank(keys, kept(keys, norms, norms.len()));
    let f = absorbed_flags(norms, r, r.len());
    let sp = stay_positions(f, r.len());
    let plan = spec_dedup_plan(keys, contents);
    assert(norms[i].len() == 0);
    assert(!merged_away(keys, norms, i));
    assert(r.contains(i));
    let a = choose|a: int| 0 <= a < r.len() && r[a] == i;
    lemma_flag_at(norms, r, r.len(), a);
    lemma_absorber_in(norms, r, f, a, a as nat);
    if absorber_in(norms, r, f, a, a as nat) >= 0 {
        let x = absorber_in(norms, r, f, a, a as nat);
        lemma_no_words_no_duplicate(norms[r[x]], norms[r[a]]);
    }
    assert(!f[a]);
    assert(sp.contains(a));
    let p = choose|p: int| 0 <= p < sp.len() && sp[p] == a;
    let m = merged_into(keys, norms, i, norms.len());
    let ab = absorbed_by(norms, r, f, a, r.len());
    assert(plan[p] == (i, m + ab));
    if m.len() > 0 {
        lemma_merged_into(keys, norms, i, norms.len());
        let j = m[0];
        lemma_best_of(keys, norms, norms[j], norms.len());
        assert(norms[i] == norms[j]);
        assert(false);
    }
    if ab.len() > 0 {
        lemma_absorbed_by(norms, r, f, a, r.len());
        let b = choose|b: int| 0 <= b < r.len() && f[b] && absorber_in(norms, r, f, b, b as nat) == a
            && ab[0] == r[b];
        lemma_absorber_in(norms, r, f, b, b as nat);
        lemma_no_words_no_duplicate(norms[r[a]], norms[r[b]]);
        assert(false);
    }
    assert(m + ab =~= Seq::<int>::empty());
    assert(plan[p] == (i, Seq::<int>::empty()));
}

/// Law: no two results that stay have the same content (whitespace aside,
/// contents with words), nor near-identical word sets.
pub proof fn law_dedup_distinct(keys: Seq<u64>, contents: Seq<Seq<char>>)
    requires
        keys.len() == contents.len(),
    ensures
        forall|p: int, q: int| 0 <= p < q < spec_dedup_plan(keys, contents).len() ==> {
            let x = spec_normalize(contents[#[trigger] spec_dedup_plan(keys, contents)[p].0]);
            let y = spec_normalize(contents[#[trigger] spec_dedup_plan(keys, contents)[q].0]);
            &&& !near_duplicate(x, y)
            &&& (x.len() > 0 ==> x != y)
        },
{
    lemma_plan_parts(keys, contents);
    let norms = normalized(contents);
    let r = rank(keys, kept(keys, norms, norms.len()));
    let f = absorbed_flags(norms, r, r.len());
    let sp = stay_positions(f, r.len());
    let plan = spec_dedup_plan(keys, contents);
    assert forall|p: int, q: int| 0 <= p < q < plan.len() implies {
        let x = spec_normalize(contents[#[trigger] plan[p].0]);
        let y = spec_normalize(contents[#[trigger] plan[q].0]);
        &&& !near_duplicate(x, y)
        &&& (x.len() > 0 ==> x != y)
    } by {
        let a = sp[p];
        let b = sp[q];
        assert(a < b);
        assert(plan[p].0 == r[a] && plan[q].0 == r[b]);
        assert(norms[r[a]] == spec_normalize(contents[r[a]]));
        assert(norms[r[b]] == spec_normalize(contents[r[b]]));
        lemma_flag_at(norms, r, r.len(), b);
        lemma_absorber_in(norms, r, f, b, b as nat);
        assert(f[a] || !near_duplicate(norms[r[a]], norms[r[b]]));
        if norms[r[a]].len() > 0 && norms[r[a]] == norms[r[b]] {
            assert(r[a] != r[b]);
            assert(best_of(keys, norms, norms[r[a]], norms.len()) == r[a]);
            assert(best_of(keys, norms, norms[r[b]], norms.len()) == r[b]);
        }
    }
}

proof fn lemma_merged_into_contains(keys: Seq<u64>, norms: Seq<Seq<char>>, w: int, n: nat, i: int)
    requires
        0 <= i < n <= norms.len(),
        merged_away(keys, norms, i),
        best_of(keys, norms, norms[i], norms.len()) == w,
    ensures
        merged_into(keys, norms, w, n).contains(i),
    decreases n,
{
    let s0 = merged_into(keys, norms, w, (n - 1) as nat);
    if i < n - 1 {
        lemma_merged_into_contains(keys, norms, w, (n - 1) as nat, i);
        let k = choose|k: int| 0 <= k < s0.len() && s0[k] == i;
        if merged_away(keys, norms, n - 1) && best_of(keys, norms, norms[n - 1], norms.len()) == w {
            assert(s0.push(n - 1)[k] == i);
        }
    } else {
        assert(s0.push(i)[s0.len() as int] == i);
    }
}

proof fn lemma_absorbed_by_contains(norms: Seq<Seq<char>>, r: Seq<int>, flags: Seq<bool>, x: int, n: nat, b: int)
    requires
        0 <= b < n,
        flags[b],
        absorber_in(norms, r, flags, b, b as nat) == x,
    ensures
        absorbed_by(norms, r, flags, x, n).contains(r[b]),
    decreases n,
{
    let s0 = absorbed_by(norms, r, flags, x, (n - 1) as nat);
    if b < n - 1 {
        lemma_absorbed_by_contains(norms, r, flags, x, (n - 1) as nat, b);
        let k = choose|k: int| 0 <= k < s0.len() && s0[k] == r[b];
        let c = n - 1;
        if flags[c] && absorber_in(norms, r, flags, c, c as nat) == x {
            assert(s0.push(r[c])[k] == r[b]);
        }
    } else {
        assert(s0.push(r[b])[s0.len() as int] == r[b]);
    }
}

/// Law: a result is never dropped unless it was folded into one of the
/// same content that is itself absorbed later. Every result not folded
/// into one of equal content stays, or is folded into one that stays; one
/// folded into a result of equal content that stays is listed with it.
pub proof fn law_dedup_covers(keys: Seq<u64>, contents: Seq<Seq<char>>, i: int)
    requires
        keys.len() == contents.len(),
        0 <= i < contents.len(),
    ensures
        !merged_away(keys, normalized(contents), i) ==> exists|p: int| 0 <= p < spec_dedup_plan(keys, contents).len() && {
            let e = #[trigger] spec_dedup_plan(keys, contents)[p];
            e.0 == i || e.1.contains(i)
        },
        forall|p: int| 0 <= p < spec_dedup_plan(keys, contents).len() && merged_away(keys, normalized(contents), i)
            && #[trigger] spec_dedup_plan(keys, contents)[p].0
                == best_of(keys, normalized(contents), normalized(contents)[i], contents.len())
            ==> spec_dedup_plan(keys, contents)[p].1.contains(i),
{
    lemma_plan_parts(keys, contents);
    let norms = normalized(contents);
    let r = rank(keys, kept(keys, norms, norms.len()));
    let f = absorbed_flags(norms, r, r.len());
    let sp = stay_positions(f, r.len());
    let plan = spec_dedup_plan(keys, contents);
    if !merged_away(keys, norms, i) {
        assert(r.contains(i));
        let a = choose|a: int| 0 <= a < r.len() && r[a] == i;
        lemma_flag_at(norms, r, r.len(), a);
        if !f[a] {
            assert(sp.contains(a));
            let p = choose|p: int| 0 <= p < sp.len() && sp[p] == a;
            assert(plan[p].0 == i);
        } else {
            lemma_absorber_in(norms, r, f, a, a as nat);
            let x = absorber_in(norms, r, f, a, a as nat);
            assert(sp.contains(x));
            let p = choose|p: int| 0 <= p < sp.len() && sp[p] == x;
            let m = merged_into(keys, norms, r[x], norms.len());
            let ab = absorbed_by(norms, r, f, x, r.len());
            assert(plan[p] == (r[x], m + ab));
            lemma_absorbed_by_contains(norms, r, f, x, r.len(), a);
            let k = choose|k: int| 0 <= k < ab.len() && ab[k] == r[a];
            assert((m + ab)[m.len() + k] == i);
            assert(plan[p].1.contains(i));
        }
    }
    assert forall|p: int| 0 <= p < plan.len() && merged_away(keys, norms, i)
        && #[trigger] plan[p].0 == best_of(keys, norms, norms[i], contents.len())
        implies plan[p].1.contains(i) by {
        let a = sp[p];
        let w = r[a];
        let m = merged_into(keys, norms, w, norms.len());
        let ab = absorbed_by(norms, r, f, a, r.len());
        assert(plan[p] == (w, m + ab));
        lemma_merged_into_contains(keys, norms, w, norms.len(), i);
        let k = choose|k: int| 0 <= k < m.len() && m[k] == i;
        assert((m + ab)[k] == i);
    }
}

} // verus!

//! What every chunking strategy guarantees: chunks sit on the file's lines
//! in order without overlapping, each holds a non-whitespace character,
//! there are none exactly when the file is blank, and no non-blank line of
//! the file is lost.
use vstd::prelude::*;

use crate::chunk::{
    code_chunk_exts, file_ext,
    code_pieces, code_state, code_step, flushed, frontmatter_spec, glue, lemma_back_search,
    lemma_code_state_lo, lemma_find_close, lemma_md_state_lo, lemma_text_state_lo, md_pieces,
    md_state, md_step, merge_spec, merge_state, merge_step, para_split, spec_chunk_code,
    spec_chunk_markdown, spec_chunk_text, spec_chunk_file, text_pieces, text_state, text_step, with_fallback,
    ChunkKind, MdState, SpecChunk,
};
use crate::chunk::{trimmed_size, MIN_CHUNK_CHARS};
use crate::text::{
    split_nl, strip_cr, byte_len, leading_ws, split_ws, ws_words, unsplit, lemma_split_nl,
    lemma_unsplit_locate, lemma_unsplit_segment, lemma_byte_len_concat, lemma_leading_ws, lemma_trailing_ws, trailing_ws,
    trim,
    contains_seq, is_blank, is_ws, join_lines, lemma_contains_concat, lemma_contains_nonblank,
    lemma_contains_refl, lemma_contains_trans, lemma_join_contains, lemma_line_in_content,
    lemma_nonblank_has_line, lines_of,
};

verus! {

/// Chunks lie on lines `1..=n`, in order and without overlap, and each holds
/// a non-whitespace character.
pub open spec fn well_placed(cs: Seq<SpecChunk>, n: int) -> bool {
    &&& forall|k: int| 0 <= k < cs.len() ==> 1 <= #[trigger] cs[k].line_start <= cs[k].line_end <= n
    &&& forall|j: int, k: int| 0 <= j < k < cs.len() ==> #[trigger] cs[j].line_end < #[trigger] cs[k].line_start
    &&& forall|k: int| 0 <= k < cs.len() ==> !is_blank(#[trigger] cs[k].content)
}

/// Some chunk's content holds `x`.
pub open spec fn held_by(cs: Seq<SpecChunk>, x: Seq<char>) -> bool {
    exists|m: int| 0 <= m < cs.len() && contains_seq(#[trigger] cs[m].content, x)
}

/// Line `j` lies inside some chunk's line range.
pub open spec fn line_covered(cs: Seq<SpecChunk>, j: int) -> bool {
    exists|k: int| 0 <= k < cs.len() && #[trigger] cs[k].line_start - 1 <= j < cs[k].line_end
}

/// The chunks flushed from the first `lo` lines: well placed below `lo`,
/// each the join of its lines, and covering every non-blank line below `lo`.
pub open spec fn flushed_inv(ls: Seq<Seq<char>>, acc: Seq<SpecChunk>, lo: int) -> bool {
    &&& 0 <= lo <= ls.len()
    &&& well_placed(acc, lo)
    &&& forall|k: int| 0 <= k < acc.len() ==> (#[trigger] acc[k]).content == join_lines(
        ls.subrange(acc[k].line_start - 1, acc[k].line_end),
    )
    &&& forall|j: int| 0 <= j < lo && !is_blank(ls[j]) ==> line_covered(acc, j)
}

pub proof fn lemma_join_blank(ls: Seq<Seq<char>>)
    requires
        forall|j: int| 0 <= j < ls.len() ==> is_blank(#[trigger] ls[j]),
    ensures
        is_blank(join_lines(ls)),
    decreases ls.len(),
{
    if ls.len() > 1 {
        lemma_join_blank(ls.drop_last());
        let f = join_lines(ls.drop_last());
        let l = ls.last();
        assert(ls.drop_last()[0] == ls[0]);
        assert(is_blank(l));
        let j = join_lines(ls);
        assert(j == f + seq!['\n'] + l);
        assert forall|i: int| 0 <= i < j.len() implies #[trigger] is_ws(j[i]) by {
            if i < f.len() {
                assert(j[i] == f[i]);
            } else if i == f.len() {
                assert(j[i] == '\n');
            } else {
                assert(j[i] == l[i - f.len() - 1]);
            }
        }
    } else if ls.len() == 1 {
        assert(is_blank(ls[0]));
    }
}

/// A window with a non-blank line joins into non-blank text that holds it.
pub proof fn lemma_window_line(ls: Seq<Seq<char>>, lo: int, hi: int, j: int)
    requires
        0 <= lo <= j < hi <= ls.len(),
    ensures
        contains_seq(join_lines(ls.subrange(lo, hi)), ls[j]),
        !is_blank(ls[j]) ==> !is_blank(join_lines(ls.subrange(lo, hi))),
{
    let w = ls.subrange(lo, hi);
    assert(w[j - lo] == ls[j]);
    lemma_join_contains(w, j - lo);
    if !is_blank(ls[j]) {
        lemma_contains_nonblank(join_lines(w), ls[j]);
    }
}

/// Flushing the window `lo..hi` keeps the invariant, now up to `hi`.
pub proof fn lemma_flush_extend(ls: Seq<Seq<char>>, acc: Seq<SpecChunk>, lo: int, hi: int, kind: ChunkKind)
    requires
        flushed_inv(ls, acc, lo),
        lo <= hi <= ls.len(),
    ensures
        flushed_inv(ls, acc + flushed(ls, lo, hi, kind), hi),
{
    let f = flushed(ls, lo, hi, kind);
    let acc2 = acc + f;
    if f.len() == 0 {
        assert(acc2 =~= acc);
        assert forall|j: int| 0 <= j < hi && !is_blank(ls[j]) implies line_covered(acc2, j) by {
            if j >= lo {
                lemma_window_line(ls, lo, hi, j);
            }
        }
    } else {
        let c = f[0];
        assert(acc2 == acc.push(c));
        assert forall|k: int| 0 <= k < acc2.len() implies 1 <= #[trigger] acc2[k].line_start <= acc2[k].line_end <= hi by {
            if k < acc.len() {
                assert(acc2[k] == acc[k]);
            }
        }
        assert forall|a: int, b: int| 0 <= a < b < acc2.len() implies #[trigger] acc2[a].line_end < #[trigger] acc2[b].line_start by {
            assert(acc2[a] == acc[a]);
            if b < acc.len() {
                assert(acc2[b] == acc[b]);
            }
        }
        assert forall|k: int| 0 <= k < acc2.len() implies !is_blank(#[trigger] acc2[k].content) by {
            if k < acc.len() {
                assert(acc2[k] == acc[k]);
            }
        }
        assert forall|k: int| 0 <= k < acc2.len() implies (#[trigger] acc2[k]).content == join_lines(
            ls.subrange(acc2[k].line_start - 1, acc2[k].line_end),
        ) by {
            if k < acc.len() {
                assert(acc2[k] == acc[k]);
            }
        }
        assert forall|j: int| 0 <= j < hi && !is_blank(ls[j]) implies line_covered(acc2, j) by {
            if j < lo {
                assert(line_covered(acc, j));
                let k = choose|k: int| 0 <= k < acc.len() && #[trigger] acc[k].line_start - 1 <= j < acc[k].line_end;
                assert(acc2[k] == acc[k]);
                assert(acc2[k].line_start - 1 <= j < acc2[k].line_end);
            } else {
                assert(acc2[acc.len() as int] == c);
            }
        }
    }
}

/// A blank line can be passed over.
pub proof fn lemma_skip_blank(ls: Seq<Seq<char>>, acc: Seq<SpecChunk>, lo: int)
    requires
        flushed_inv(ls, acc, lo),
        lo < ls.len(),
        is_blank(ls[lo]),
    ensures
        flushed_inv(ls, acc, lo + 1),
{
}

pub proof fn lemma_text_inv(ls: Seq<Seq<char>>, i: int)
    requires
        0 <= i <= ls.len(),
    ensures
        flushed_inv(ls, text_state(ls, i).0, text_state(ls, i).1),
    decreases i,
{
    if i > 0 {
        lemma_text_inv(ls, i - 1);
        lemma_text_state_lo(ls, i - 1);
        let (acc, lo) = text_state(ls, i - 1);
        if is_blank(ls[i - 1]) {
            lemma_flush_extend(ls, acc, lo, i - 1, ChunkKind::Paragraph);
            lemma_skip_blank(ls, acc + flushed(ls, lo, i - 1, ChunkKind::Paragraph), i - 1);
        } else if crate::chunk::chars_size(ls.subrange(lo, i)) > crate::chunk::MAX_CHUNK_CHARS {
            lemma_flush_extend(ls, acc, lo, i, ChunkKind::Paragraph);
        }
    }
}

pub proof fn lemma_code_inv(ls: Seq<Seq<char>>, i: int)
    requires
        0 <= i <= ls.len(),
    ensures
        flushed_inv(ls, code_state(ls, i).0, code_state(ls, i).1),
    decreases i,
{
    if i > 0 {
        lemma_code_inv(ls, i - 1);
        lemma_code_state_lo(ls, i - 1);
        let (acc, lo) = code_state(ls, i - 1);
        let boundary = crate::chunk::is_code_boundary_spec(crate::text::trim_start(ls[i - 1])) && lo < i - 1;
        let (acc1, lo1) = if boundary {
            (acc + flushed(ls, lo, i - 1, ChunkKind::Function), i - 1)
        } else {
            (acc, lo)
        };
        if boundary {
            lemma_flush_extend(ls, acc, lo, i - 1, ChunkKind::Function);
        }
        if crate::chunk::chars_size(ls.subrange(lo1, i)) > crate::chunk::MAX_CHUNK_CHARS || i - lo1
            >= crate::chunk::MAX_CODE_LINES {
            lemma_flush_extend(ls, acc1, lo1, i, ChunkKind::CodeBlock);
        }
    }
}

pub proof fn lemma_md_inv(ls: Seq<Seq<char>>, i: int)
    requires
        frontmatter_spec(ls).0 <= i <= ls.len(),
    ensures
        flushed_inv(ls, md_state(ls, frontmatter_spec(ls).0, i).acc, md_state(ls, frontmatter_spec(ls).0, i).lo),
    decreases i,
{
    let start = frontmatter_spec(ls).0;
    lemma_find_close(ls, 1);
    assert(start >= 0);
    if i == start {
        if ls.len() > 0 && crate::text::trim(ls[0]) == "---"@ {
            lemma_find_close(ls, 1);
            if let Some(c) = crate::chunk::find_close(ls, 1) {
                lemma_flush_extend(ls, Seq::empty(), 0, c + 1, ChunkKind::Frontmatter);
                assert(Seq::<SpecChunk>::empty() + flushed(ls, 0, c + 1, ChunkKind::Frontmatter) == frontmatter_spec(ls).1);
            }
        }
    } else {
        lemma_md_inv(ls, i - 1);
        lemma_md_state_lo(ls, start, i - 1);
        let st = md_state(ls, start, i - 1);
        let k = i - 1;
        if st.in_code {
            let fence = if st.backtick { "```"@ } else { "~~~"@ };
            if crate::text::starts_with(crate::text::trim_start(ls[k]), fence) && k + 1 - st.lo > 1 {
                lemma_flush_extend(ls, st.acc, st.lo, i, ChunkKind::CodeBlock);
            }
        } else {
            let t = crate::text::trim_start(ls[k]);
            if crate::text::starts_with(t, "```"@) || crate::text::starts_with(t, "~~~"@) {
                if st.lo < k {
                    lemma_flush_extend(ls, st.acc, st.lo, k, st.kind);
                }
            } else {
                let heading = crate::text::starts_with(ls[k], "#"@);
                let acc1 = if heading && st.lo < k { st.acc + flushed(ls, st.lo, k, st.kind) } else { st.acc };
                let lo1 = if heading { k } else { st.lo };
                let kind1 = if heading { ChunkKind::HeadingSection } else { st.kind };
                if heading && st.lo < k {
                    lemma_flush_extend(ls, st.acc, st.lo, k, st.kind);
                }
                assert(flushed_inv(ls, acc1, lo1));
                if crate::chunk::chars_size(ls.subrange(lo1, k + 1)) > crate::chunk::MAX_CHUNK_CHARS {
                    let w = ls.subrange(lo1, k + 1);
                    lemma_back_search(w, (w.len() / 2) as int, w.len() as int);
                    let sp = para_split(w);
                    lemma_flush_extend(ls, acc1, lo1, lo1 + sp, kind1);
                }
            }
        }
    }
}

/// Gluing keeps both halves.
pub proof fn lemma_glue_contains(a: Seq<char>, b: Seq<char>)
    ensures
        contains_seq(glue(a, b), a),
        contains_seq(glue(a, b), b),
{
    lemma_contains_concat(a + seq!['\n'], b);
    lemma_contains_concat(a, seq!['\n']);
    lemma_contains_trans(glue(a, b), a + seq!['\n'], a);
}

/// The merge state after `k` chunks: what is settled is well placed, the
/// pending chunk follows it, the last end seen is `cs[k-1]`'s, and every
/// chunk so far is held by the settled chunks or the pending one.
#[verifier::opaque]
pub open spec fn merge_inv(cs: Seq<SpecChunk>, n: int, k: int, res: Seq<SpecChunk>, pend: Option<SpecChunk>) -> bool {
    &&& well_placed(res, n)
    &&& (pend matches Some(p) ==> {
        &&& !is_blank(p.content)
        &&& 1 <= p.line_start <= p.line_end <= n
        &&& forall|m: int| 0 <= m < res.len() ==> #[trigger] res[m].line_end < p.line_start
    })
    &&& (k == 0 ==> res.len() == 0 && pend is None)
    &&& (k > 0 ==> res.len() > 0 || pend is Some)
    &&& (k > 0 ==> match pend {
        Some(p) => p.line_end == cs[k - 1].line_end,
        None => res.last().line_end == cs[k - 1].line_end,
    })
    &&& (k > 0 ==> forall|m: int| 0 <= m < res.len() ==> #[trigger] res[m].line_end <= cs[k - 1].line_end)
    &&& forall|j: int| 0 <= j < k ==> held_by(res, #[trigger] cs[j].content) || (pend matches Some(p)
        && contains_seq(p.content, cs[j].content))
}

pub proof fn lemma_held_push(res: Seq<SpecChunk>, c: SpecChunk, x: Seq<char>)
    requires
        held_by(res, x),
    ensures
        held_by(res.push(c), x),
{
    let m = choose|m: int| 0 <= m < res.len() && contains_seq(#[trigger] res[m].content, x);
    assert(res.push(c)[m] == res[m]);
}

/// Appending a chunk that starts after every end keeps chunks well placed.
pub proof fn lemma_well_placed_push(res: Seq<SpecChunk>, c: SpecChunk, n: int)
    requires
        well_placed(res, n),
        !is_blank(c.content),
        1 <= c.line_start <= c.line_end <= n,
        forall|m: int| 0 <= m < res.len() ==> #[trigger] res[m].line_end < c.line_start,
    ensures
        well_placed(res.push(c), n),
{
    let r2 = res.push(c);
    assert forall|a: int, b: int| 0 <= a < b < r2.len() implies #[trigger] r2[a].line_end < #[trigger] r2[b].line_start by {
        assert(r2[a] == res[a]);
        if b < res.len() {
            assert(r2[b] == res[b]);
        }
    }
    assert forall|m: int| 0 <= m < r2.len() implies 1 <= #[trigger] r2[m].line_start <= r2[m].line_end <= n by {
        if m < res.len() {
            assert(r2[m] == res[m]);
        }
    }
    assert forall|m: int| 0 <= m < r2.len() implies !is_blank(#[trigger] r2[m].content) by {
        if m < res.len() {
            assert(r2[m] == res[m]);
        }
    }
}

/// What the merge invariant tells about the next chunk `cs[k]`.
pub proof fn lemma_merge_next(cs: Seq<SpecChunk>, n: int, k: int, res: Seq<SpecChunk>, pend: Option<SpecChunk>)
    requires
        well_placed(cs, n),
        0 <= k < cs.len(),
        merge_inv(cs, n, k, res, pend),
    ensures
        !is_blank(cs[k].content),
        1 <= cs[k].line_start <= cs[k].line_end <= n,
        forall|m: int| 0 <= m < res.len() ==> #[trigger] res[m].line_end < cs[k].line_start,
        pend matches Some(p) ==> p.line_end < cs[k].line_start,
        pend matches Some(p) ==> {
            &&& !is_blank(p.content)
            &&& 1 <= p.line_start <= p.line_end <= n
            &&& forall|m: int| 0 <= m < res.len() ==> #[trigger] res[m].line_end < p.line_start
        },
{
    reveal(merge_inv);
    let c = cs[k];
    assert(1 <= c.line_start <= c.line_end <= n);
    assert(!is_blank(c.content));
    if k > 0 {
        assert(cs[k - 1].line_end < cs[k].line_start);
    }
}

pub proof fn lemma_merge_settle(cs: Seq<SpecChunk>, n: int, k: int, res: Seq<SpecChunk>, old_pend: Option<SpecChunk>, m: SpecChunk)
    requires
        well_placed(cs, n),
        1 <= k <= cs.len(),
        merge_inv(cs, n, k - 1, res, old_pend),
        !is_blank(m.content),
        1 <= m.line_start <= m.line_end <= n,
        m.line_end == cs[k - 1].line_end,
        forall|q: int| 0 <= q < res.len() ==> #[trigger] res[q].line_end < m.line_start,
        contains_seq(m.content, cs[k - 1].content),
        old_pend matches Some(p) ==> contains_seq(m.content, p.content),
    ensures
        merge_inv(cs, n, k, res.push(m), None),
        merge_inv(cs, n, k, res, Some(m)),
{
    reveal(merge_inv);
    lemma_well_placed_push(res, m, n);
    let r2 = res.push(m);
    assert(r2.last() == m);
    assert forall|q: int| 0 <= q < r2.len() implies #[trigger] r2[q].line_end <= cs[k - 1].line_end by {
        if q < res.len() {
            assert(r2[q] == res[q]);
        }
    }
    assert forall|q: int| 0 <= q < res.len() implies #[trigger] res[q].line_end <= cs[k - 1].line_end by {
    }
    assert forall|j: int| 0 <= j < k implies held_by(r2, #[trigger] cs[j].content) by {
        assert(r2[res.len() as int] == m);
        if j < k - 1 {
            if held_by(res, cs[j].content) {
                lemma_held_push(res, m, cs[j].content);
            } else {
                let p = old_pend.unwrap();
                lemma_contains_trans(m.content, p.content, cs[j].content);
            }
        }
    }
    assert forall|j: int| 0 <= j < k implies held_by(res, #[trigger] cs[j].content) || contains_seq(m.content, cs[j].content) by {
        if j < k - 1 {
            if !held_by(res, cs[j].content) {
                let p = old_pend.unwrap();
                lemma_contains_trans(m.content, p.content, cs[j].content);
            }
        }
    }
}

/// The chunk that `merge_step` settles or keeps pending for `c`.
pub open spec fn merge_candidate(pend: Option<SpecChunk>, c: SpecChunk) -> SpecChunk {
    match pend {
        None => c,
        Some(p) => SpecChunk {
            content: glue(p.content, c.content),
            line_start: p.line_start,
            line_end: c.line_end,
            kind: c.kind,
        },
    }
}

pub proof fn lemma_merge_step_shape(res: Seq<SpecChunk>, pend: Option<SpecChunk>, c: SpecChunk)
    requires
        !is_blank(c.content),
    ensures
        ({
            let m = merge_candidate(pend, c);
            merge_step(res, pend, c) == if crate::chunk::trimmed_size(m.content) < crate::chunk::MIN_CHUNK_CHARS {
                (res, Some(m))
            } else {
                (res.push(m), None)
            }
        }),
{
    reveal(merge_step);
}

pub proof fn lemma_merge_inv_step(cs: Seq<SpecChunk>, n: int, k: int, res: Seq<SpecChunk>, pend: Option<SpecChunk>)
    requires
        well_placed(cs, n),
        1 <= k <= cs.len(),
        merge_inv(cs, n, k - 1, res, pend),
    ensures
        merge_inv(cs, n, k, merge_step(res, pend, cs[k - 1]).0, merge_step(res, pend, cs[k - 1]).1),
{
    let c = cs[k - 1];
    lemma_merge_next(cs, n, k - 1, res, pend);
    let m = merge_candidate(pend, c);
    match pend {
        None => {
            lemma_contains_refl(c.content);
            assert(m == c);
        },
        Some(p) => {
            lemma_glue_contains(p.content, c.content);
            lemma_contains_nonblank(m.content, c.content);
            assert(m.content == glue(p.content, c.content));
            assert(contains_seq(m.content, c.content));
            assert(contains_seq(m.content, p.content));
            assert(m.line_start == p.line_start);
        },
    }
    assert(!is_blank(m.content));
    assert(1 <= m.line_start <= m.line_end <= n);
    assert(m.line_end == cs[k - 1].line_end);
    assert(forall|q: int| 0 <= q < res.len() ==> #[trigger] res[q].line_end < m.line_start);
    lemma_merge_settle(cs, n, k, res, pend, m);
    lemma_merge_step_shape(res, pend, c);
}

pub proof fn lemma_merge_inv(cs: Seq<SpecChunk>, n: int, k: int)
    requires
        well_placed(cs, n),
        0 <= k <= cs.len(),
    ensures
        merge_inv(cs, n, k, merge_state(cs, k).0, merge_state(cs, k).1),
    decreases k,
{
    if k > 0 {
        lemma_merge_inv(cs, n, k - 1);
        let prev = merge_state(cs, k - 1);
        lemma_merge_inv_step(cs, n, k, prev.0, prev.1);
    } else {
        reveal(merge_inv);
    }
}

/// Merging keeps chunks well placed, is empty only for no input, and every
/// input chunk's content survives inside some output chunk.
pub proof fn lemma_merge(cs: Seq<SpecChunk>, n: int)
    requires
        well_placed(cs, n),
    ensures
        well_placed(merge_spec(cs), n),
        merge_spec(cs).len() == 0 <==> cs.len() == 0,
        forall|j: int| 0 <= j < cs.len() ==> held_by(merge_spec(cs), #[trigger] cs[j].content),
{
    lemma_merge_inv(cs, n, cs.len() as int);
    reveal(merge_inv);
    let (res, pend) = merge_state(cs, cs.len() as int);
    let out = merge_spec(cs);
    match pend {
        None => {},
        Some(s) => {
            if res.len() > 0 {
                let last = res.last();
                let i = res.len() - 1;
                let nl = SpecChunk {
                    content: glue(last.content, s.content),
                    line_start: last.line_start,
                    line_end: s.line_end,
                    kind: last.kind,
                };
                assert(out == res.update(i, nl));
                lemma_glue_contains(last.content, s.content);
                lemma_contains_nonblank(nl.content, s.content);
                assert(res[i].line_end < s.line_start);
                assert forall|a: int, b: int| 0 <= a < b < out.len() implies #[trigger] out[a].line_end < #[trigger] out[b].line_start by {
                    assert(out[a] == res[a]);
                    assert(res[a].line_end < res[b].line_start);
                }
                assert forall|q: int| 0 <= q < out.len() implies 1 <= #[trigger] out[q].line_start <= out[q].line_end <= n by {
                    if q < i {
                        assert(out[q] == res[q]);
                    }
                }
                assert forall|q: int| 0 <= q < out.len() implies !is_blank(#[trigger] out[q].content) by {
                    if q < i {
                        assert(out[q] == res[q]);
                    }
                }
                assert forall|j: int| 0 <= j < cs.len() implies held_by(out, #[trigger] cs[j].content) by {
                    if held_by(res, cs[j].content) {
                        let m = choose|m: int| 0 <= m < res.len() && contains_seq(#[trigger] res[m].content, cs[j].content);
                        if m == i {
                            lemma_contains_trans(nl.content, last.content, cs[j].content);
                            assert(out[i] == nl);
                        } else {
                            assert(out[m] == res[m]);
                        }
                    } else {
                        lemma_contains_trans(nl.content, s.content, cs[j].content);
                        assert(out[i] == nl);
                    }
                }
            } else {
                assert(out == seq![s]);
                assert forall|j: int| 0 <= j < cs.len() implies held_by(out, #[trigger] cs[j].content) by {
                    assert(out[0] == s);
                }
            }
        },
    }
}

/// A non-blank file has flushed pieces.
pub proof fn lemma_pieces_nonempty(content: Seq<char>, pieces: Seq<SpecChunk>)
    requires
        flushed_inv(lines_of(content), pieces, lines_of(content).len() as int),
        !is_blank(content),
    ensures
        pieces.len() > 0,
{
    let ls = lines_of(content);
    lemma_nonblank_has_line(content);
    let i = choose|i: int| 0 <= i < ls.len() && !is_blank(#[trigger] ls[i]);
    assert(line_covered(pieces, i));
}

/// A blank file has no flushed pieces.
pub proof fn lemma_pieces_empty(content: Seq<char>, pieces: Seq<SpecChunk>)
    requires
        flushed_inv(lines_of(content), pieces, lines_of(content).len() as int),
        is_blank(content),
    ensures
        pieces.len() == 0,
{
    let ls = lines_of(content);
    assert forall|j: int| 0 <= j < ls.len() implies is_blank(#[trigger] ls[j]) by {
        lemma_line_in_content(content, j);
        if !is_blank(ls[j]) {
            lemma_contains_nonblank(content, ls[j]);
        }
    }
    if pieces.len() > 0 {
        let p = pieces[0];
        assert(1 <= p.line_start <= p.line_end <= ls.len());
        let w = ls.subrange(p.line_start - 1, p.line_end);
        assert forall|j: int| 0 <= j < w.len() implies is_blank(#[trigger] w[j]) by {
            assert(w[j] == ls[p.line_start - 1 + j]);
        }
        lemma_join_blank(w);
        assert(!is_blank(p.content));
    }
}

/// Every non-blank line is held by some merged chunk.
pub proof fn lemma_lines_held(ls: Seq<Seq<char>>, pieces: Seq<SpecChunk>)
    requires
        flushed_inv(ls, pieces, ls.len() as int),
    ensures
        forall|i: int| 0 <= i < ls.len() && !is_blank(#[trigger] ls[i]) ==> held_by(merge_spec(pieces), ls[i]),
{
    let n = ls.len() as int;
    lemma_merge(pieces, n);
    let merged = merge_spec(pieces);
    assert forall|i: int| 0 <= i < ls.len() && !is_blank(#[trigger] ls[i]) implies held_by(merged, ls[i]) by {
        assert(line_covered(pieces, i));
        let k = choose|k: int| 0 <= k < pieces.len() && #[trigger] pieces[k].line_start - 1 <= i < pieces[k].line_end;
        let p = pieces[k];
        assert(1 <= p.line_start <= p.line_end <= n);
        lemma_window_line(ls, p.line_start - 1, p.line_end, i);
        assert(p.content == join_lines(ls.subrange(p.line_start - 1, p.line_end)));
        assert(held_by(merged, pieces[k].content));
        let m = choose|m: int| 0 <= m < merged.len() && contains_seq(#[trigger] merged[m].content, pieces[k].content);
        lemma_contains_trans(merged[m].content, pieces[k].content, ls[i]);
    }
}

/// The guarantees of a strategy follow from its flushed pieces.
pub proof fn lemma_finish(content: Seq<char>, pieces: Seq<SpecChunk>, kind: ChunkKind)
    requires
        flushed_inv(lines_of(content), pieces, lines_of(content).len() as int),
    ensures
        ({
            let ls = lines_of(content);
            let out = with_fallback(content, merge_spec(pieces), kind);
            &&& well_placed(out, ls.len() as int)
            &&& (out.len() == 0 <==> is_blank(content))
            &&& forall|i: int| 0 <= i < ls.len() && !is_blank(#[trigger] ls[i]) ==> held_by(out, ls[i])
        }),
{
    let ls = lines_of(content);
    let n = ls.len() as int;
    lemma_merge(pieces, n);
    let merged = merge_spec(pieces);
    if !is_blank(content) {
        lemma_pieces_nonempty(content, pieces);
    } else {
        lemma_pieces_empty(content, pieces);
    }
    assert(with_fallback(content, merged, kind) == merged);
    lemma_lines_held(ls, pieces);
}

/// Plain-text chunks sit on the file's lines in order without overlapping,
/// each holds a non-whitespace character, there are none exactly when the
/// file is blank, and every non-blank line of the file appears inside some
/// chunk.
pub proof fn law_chunk_text(content: Seq<char>)
    ensures
        ({
            let ls = lines_of(content);
            let out = spec_chunk_text(content);
            &&& well_placed(out, ls.len() as int)
            &&& (out.len() == 0 <==> is_blank(content))
            &&& forall|i: int| 0 <= i < ls.len() && !is_blank(#[trigger] ls[i]) ==> held_by(out, ls[i])
        }),
{
    let ls = lines_of(content);
    lemma_text_inv(ls, ls.len() as int);
    let (acc, lo) = text_state(ls, ls.len() as int);
    lemma_flush_extend(ls, acc, lo, ls.len() as int, ChunkKind::Paragraph);
    lemma_finish(content, text_pieces(ls), ChunkKind::Paragraph);
}

/// Code chunks sit on the file's lines in order without overlapping, each
/// holds a non-whitespace character, there are none exactly when the file
/// is blank, and every non-blank line of the file appears inside some chunk.
pub proof fn law_chunk_code(content: Seq<char>)
    ensures
        ({
            let ls = lines_of(content);
            let out = spec_chunk_code(content);
            &&& well_placed(out, ls.len() as int)
            &&& (out.len() == 0 <==> is_blank(content))
            &&& forall|i: int| 0 <= i < ls.len() && !is_blank(#[trigger] ls[i]) ==> held_by(out, ls[i])
        }),
{
    let ls = lines_of(content);
    lemma_code_inv(ls, ls.len() as int);
    let (acc, lo) = code_state(ls, ls.len() as int);
    lemma_flush_extend(ls, acc, lo, ls.len() as int, ChunkKind::Function);
    lemma_finish(content, code_pieces(ls), ChunkKind::CodeBlock);
}

/// Markdown chunks sit on the file's lines in order without overlapping,
/// each holds a non-whitespace character, there are none exactly when the
/// file is blank, and every non-blank line of the file appears inside some
/// chunk.
pub proof fn law_chunk_markdown(content: Seq<char>)
    ensures
        ({
            let ls = lines_of(content);
            let out = spec_chunk_markdown(content);
            &&& well_placed(out, ls.len() as int)
            &&& (out.len() == 0 <==> is_blank(content))
            &&& forall|i: int| 0 <= i < ls.len() && !is_blank(#[trigger] ls[i]) ==> held_by(out, ls[i])
        }),
{
    let ls = lines_of(content);
    let start = frontmatter_spec(ls).0;
    lemma_find_close(ls, 1);
    assert(start <= ls.len());
    lemma_md_inv(ls, ls.len() as int);
    let st = md_state(ls, start, ls.len() as int);
    lemma_flush_extend(ls, st.acc, st.lo, ls.len() as int, st.kind);
    lemma_finish(content, md_pieces(ls), ChunkKind::Paragraph);
}

/// Whatever strategy a file's extension selects, its chunks sit on the
/// file's lines in order without overlapping, each holds a non-whitespace
/// character, there are none exactly when the file is blank, and no
/// non-blank line of the file is lost.
pub proof fn law_chunk_file(path: Seq<char>, content: Seq<char>)
    ensures
        ({
            let ls = lines_of(content);
            let out = spec_chunk_file(path, content);
            &&& well_placed(out, ls.len() as int)
            &&& (out.len() == 0 <==> is_blank(content))
            &&& forall|i: int| 0 <= i < ls.len() && !is_blank(#[trigger] ls[i]) ==> held_by(out, ls[i])
        }),
{
    law_chunk_text(content);
    law_chunk_code(content);
    law_chunk_markdown(content);
}


/// No word of a file is lost: any non-blank piece of one of its lines, such
/// as a word, occurs inside some chunk.
pub proof fn law_chunk_file_words(path: Seq<char>, content: Seq<char>, i: int, w: Seq<char>)
    requires
        0 <= i < lines_of(content).len(),
        contains_seq(lines_of(content)[i], w),
        !is_blank(w),
    ensures
        held_by(spec_chunk_file(path, content), w),
{
    let ls = lines_of(content);
    let out = spec_chunk_file(path, content);
    law_chunk_file(path, content);
    lemma_contains_nonblank(ls[i], w);
    assert(held_by(out, ls[i]));
    let m = choose|m: int| 0 <= m < out.len() && contains_seq(#[trigger] out[m].content, ls[i]);
    lemma_contains_trans(out[m].content, ls[i], w);
}

/// Whether no character of `w` is whitespace.
pub open spec fn no_ws(w: Seq<char>) -> bool {
    forall|i: int| 0 <= i < w.len() ==> !is_ws(#[trigger] w[i])
}

/// The words a whitespace split yields are non-empty, hold no whitespace and
/// occur in the text.
#[verifier::spinoff_prover]
#[verifier::rlimit(50)]
proof fn lemma_split_ws_pieces(s: Seq<char>)
    ensures
        ({
            let (done, cur) = split_ws(s);
            &&& forall|j: int| 0 <= j < done.len() ==> (#[trigger] done[j]).len() > 0 && no_ws(done[j])
                && contains_seq(s, done[j])
            &&& no_ws(cur)
            &&& cur.len() <= s.len()
            &&& s.subrange(s.len() - cur.len(), s.len() as int) == cur
        }),
    decreases s.len(),
{
    if s.len() > 0 {
        let t = s.drop_last();
        lemma_split_ws_pieces(t);
        let (done, cur) = split_ws(t);
        let c = s.last();
        assert(s =~= t + seq![c]);
        lemma_contains_concat(t, seq![c]);
        assert forall|j: int| 0 <= j < done.len() implies contains_seq(s, #[trigger] done[j]) by {
            lemma_contains_trans(s, t, done[j]);
        }
        if is_ws(c) {
            if cur.len() > 0 {
                assert(contains_seq(t, cur)) by {
                    assert(t.subrange(t.len() - cur.len(), t.len() - cur.len() + cur.len()) == cur);
                }
                lemma_contains_trans(s, t, cur);
                let d2 = done.push(cur);
                assert forall|j: int| 0 <= j < d2.len() implies (#[trigger] d2[j]).len() > 0 && no_ws(d2[j])
                    && contains_seq(s, d2[j]) by {
                    if j < done.len() {
                        assert(d2[j] == done[j]);
                    }
                }
            }
            assert(s.subrange(s.len() as int, s.len() as int) =~= Seq::<char>::empty());
        } else {
            let c2 = cur.push(c);
            assert forall|i: int| 0 <= i < c2.len() implies !is_ws(#[trigger] c2[i]) by {
                if i < cur.len() {
                    assert(c2[i] == cur[i]);
                }
            }
            assert(s.subrange(s.len() - c2.len(), s.len() as int) =~= c2);
        }
    }
}

/// Every word of a whitespace split is non-empty, holds no whitespace and
/// occurs in the text.
proof fn lemma_ws_word(s: Seq<char>, k: int)
    requires
        0 <= k < ws_words(s).len(),
    ensures
        ws_words(s)[k].len() > 0,
        no_ws(ws_words(s)[k]),
        contains_seq(s, ws_words(s)[k]),
{
    lemma_split_ws_pieces(s);
    let (done, cur) = split_ws(s);
    if k == done.len() {
        assert(ws_words(s)[k] == cur);
        assert(s.subrange(s.len() - cur.len(), s.len() - cur.len() + cur.len()) == cur);
    } else {
        assert(ws_words(s)[k] == done[k]);
    }
}

/// A stretch of a text holding no whitespace lies within one of its lines.
proof fn lemma_piece_in_line(s: Seq<char>, w: Seq<char>)
    requires
        contains_seq(s, w),
        w.len() > 0,
        no_ws(w),
    ensures
        exists|i: int| 0 <= i < lines_of(s).len() && contains_seq(#[trigger] lines_of(s)[i], w),
{
    lemma_split_nl(s);
    let (done, cur) = split_nl(s);
    let u = unsplit(done);
    let ls = lines_of(s);
    let k = choose|k: int| 0 <= k && k + w.len() <= s.len() && #[trigger] s.subrange(k, k + w.len()) == w;
    assert(s == u + cur);
    assert(is_ws('\n') && is_ws('\r'));
    if k >= u.len() {
        assert(cur.subrange(k - u.len(), k - u.len() + w.len()) =~= w);
        assert(cur.len() > 0);
        assert(ls[done.len() as int] == cur);
        assert(contains_seq(ls[done.len() as int], w));
    } else {
        assert(s[k] == u[k]);
        lemma_unsplit_locate(done, k);
        let j = choose|j: int|
            0 <= j < done.len() && unsplit(done.take(j)).len() <= k <= unsplit(done.take(j)).len()
                + #[trigger] done[j].len();
        lemma_unsplit_segment(done, j);
        let off = unsplit(done.take(j)).len() as int;
        let d = done[j];
        let nl = off + d.len();
        assert(u[nl] == '\n');
        if k == nl {
            assert(w[0] == s[k]);
        } else if k + w.len() > nl {
            assert(s[nl] == u[nl]);
            assert(w[nl - k] == s[nl]);
        } else {
            assert(d.subrange(k - off, k - off + w.len()) =~= w) by {
                assert forall|q: int| 0 <= q < w.len() implies d.subrange(k - off, k - off + w.len())[q] == w[q] by {
                    assert(d[k - off + q] == u.subrange(off, off + d.len())[k - off + q]);
                    assert(u[k + q] == s[k + q]);
                    assert(w[q] == s.subrange(k, k + w.len())[q]);
                }
            }
            let l = strip_cr(d);
            assert(ls[j] == l);
            if k - off + w.len() > l.len() {
                assert(d.last() == '\r');
                assert(w[w.len() - 1] == d[d.len() - 1]);
            }
            assert(l.subrange(k - off, k - off + w.len()) =~= w);
            assert(contains_seq(ls[j], w));
        }
    }
}

/// No word of a file is lost: any non-blank piece of a whitespace-separated
/// word of the file, such as the word with its punctuation trimmed, occurs
/// inside some chunk.
pub proof fn law_chunk_file_split_words(path: Seq<char>, content: Seq<char>, k: int, c: Seq<char>)
    requires
        0 <= k < ws_words(content).len(),
        contains_seq(ws_words(content)[k], c),
        !is_blank(c),
    ensures
        held_by(spec_chunk_file(path, content), c),
{
    let w = ws_words(content)[k];
    lemma_ws_word(content, k);
    lemma_piece_in_line(content, w);
    let ls = lines_of(content);
    let i = choose|i: int| 0 <= i < ls.len() && contains_seq(#[trigger] ls[i], w);
    lemma_contains_trans(ls[i], w, c);
    law_chunk_file_words(path, content, i, c);
}

/// How a file is chunked by its lowercased extension: `md` and `markdown`
/// by headings; rs, py, ts, tsx, js, jsx, go, java, kt, c, cpp, h, cs, rb,
/// swift, zig and lua on code boundaries; anything else by paragraphs.
pub proof fn law_chunk_file_dispatch(path: Seq<char>, content: Seq<char>)
    ensures
        ({
            let e = file_ext(path);
            let code = seq!["rs"@, "py"@, "ts"@, "tsx"@, "js"@, "jsx"@, "go"@, "java"@, "kt"@, "c"@, "cpp"@, "h"@, "cs"@, "rb"@, "swift"@, "zig"@, "lua"@];
            &&& (e == "md"@ || e == "markdown"@) ==> spec_chunk_file(path, content) == spec_chunk_markdown(content)
            &&& code.contains(e) ==> spec_chunk_file(path, content) == spec_chunk_code(content)
            &&& !(e == "md"@ || e == "markdown"@) && !code.contains(e) ==> spec_chunk_file(path, content)
                == spec_chunk_text(content)
        }),
{
    let e = file_ext(path);
    let code = seq!["rs"@, "py"@, "ts"@, "tsx"@, "js"@, "jsx"@, "go"@, "java"@, "kt"@, "c"@, "cpp"@, "h"@, "cs"@, "rb"@, "swift"@, "zig"@, "lua"@];
    assert(code =~= code_chunk_exts());
    reveal_strlit("rs");
    reveal_strlit("py");
    reveal_strlit("ts");
    reveal_strlit("tsx");
    reveal_strlit("js");
    reveal_strlit("jsx");
    reveal_strlit("go");
    reveal_strlit("java");
    reveal_strlit("kt");
    reveal_strlit("c");
    reveal_strlit("cpp");
    reveal_strlit("h");
    reveal_strlit("cs");
    reveal_strlit("rb");
    reveal_strlit("swift");
    reveal_strlit("zig");
    reveal_strlit("lua");
    reveal_strlit("md");
    reveal_strlit("markdown");
    assert("md"@.len() == 2 && "md"@[0] == 'm' && "markdown"@.len() == 8);
    assert(code[0] == "rs"@ && "rs"@.len() == 2 && "rs"@[0] == 'r');
    assert(code[1] == "py"@ && "py"@.len() == 2 && "py"@[0] == 'p');
    assert(code[2] == "ts"@ && "ts"@.len() == 2 && "ts"@[0] == 't');
    assert(code[3] == "tsx"@ && "tsx"@.len() == 3 && "tsx"@[0] == 't');
    assert(code[4] == "js"@ && "js"@.len() == 2 && "js"@[0] == 'j');
    assert(code[5] == "jsx"@ && "jsx"@.len() == 3 && "jsx"@[0] == 'j');
    assert(code[6] == "go"@ && "go"@.len() == 2 && "go"@[0] == 'g');
    assert(code[7] == "java"@ && "java"@.len() == 4 && "java"@[0] == 'j');
    assert(code[8] == "kt"@ && "kt"@.len() == 2 && "kt"@[0] == 'k');
    assert(code[9] == "c"@ && "c"@.len() == 1 && "c"@[0] == 'c');
    assert(code[10] == "cpp"@ && "cpp"@.len() == 3 && "cpp"@[0] == 'c');
    assert(code[11] == "h"@ && "h"@.len() == 1 && "h"@[0] == 'h');
    assert(code[12] == "cs"@ && "cs"@.len() == 2 && "cs"@[0] == 'c');
    assert(code[13] == "rb"@ && "rb"@.len() == 2 && "rb"@[0] == 'r');
    assert(code[14] == "swift"@ && "swift"@.len() == 5 && "swift"@[0] == 's');
    assert(code[15] == "zig"@ && "zig"@.len() == 3 && "zig"@[0] == 'z');
    assert(code[16] == "lua"@ && "lua"@.len() == 3 && "lua"@[0] == 'l');
    if code.contains(e) {
        let i = choose|i: int| 0 <= i < code.len() && code[i] == e;
        assert(e.len() != 8 && (e.len() != 2 || e[0] != 'm'));
    }
}

/// A trimmed code line opens a new unit exactly when it starts with one of
/// the declaration keywords of Rust (`fn`, `impl`, `struct`, `enum`,
/// `trait`, `mod`, each also `pub`, and `async fn`), Python (`def`,
/// `async def`, `class`), JavaScript/TypeScript (`function`, `async
/// function`, `export function`, `export async function`, `export class`,
/// `export default function`, `export default class`), Go (`func`) or
/// Java/Kotlin/Swift (`public class`, `private class`, `protected class`,
/// `fun`).
pub proof fn law_code_boundary(trimmed: Seq<char>)
    ensures
        crate::chunk::is_code_boundary_spec(trimmed) <==> exists|j: int|
            0 <= j < declaration_openers().len() && crate::text::starts_with(trimmed, #[trigger] declaration_openers()[j]),
{
    assert(declaration_openers() =~= crate::chunk::code_boundary_prefixes());
}

/// The line openings of declarations in the languages the code chunker
/// knows.
pub open spec fn declaration_openers() -> Seq<Seq<char>> {
    seq![
        "fn "@, "pub fn "@, "async fn "@, "pub async fn "@, "impl "@, "pub impl "@,
        "struct "@, "pub struct "@, "enum "@, "pub enum "@, "trait "@, "pub trait "@,
        "mod "@, "pub mod "@,
        "def "@, "async def "@, "class "@,
        "function "@, "async function "@, "export function "@, "export async function "@,
        "export class "@, "export default function"@, "export default class"@,
        "func "@,
        "public class "@, "private class "@, "protected class "@, "fun "@,
    ]
}

// ─── What merging guarantees on its own ──────────────────────────────────────

proof fn lemma_leading_ws_concat(x: Seq<char>, y: Seq<char>)
    requires
        !is_blank(x),
    ensures
        leading_ws(x + y) == leading_ws(x),
    decreases x.len(),
{
    if is_ws(x[0]) {
        assert(!is_blank(x.drop_first())) by {
            let i = choose|i: int| 0 <= i < x.len() && !is_ws(#[trigger] x[i]);
            assert(x.drop_first()[i - 1] == x[i]);
        }
        assert((x + y).drop_first() =~= x.drop_first() + y);
        lemma_leading_ws_concat(x.drop_first(), y);
    }
}

proof fn lemma_trailing_ws_concat(x: Seq<char>, y: Seq<char>)
    requires
        !is_blank(y),
    ensures
        trailing_ws(x + y) == trailing_ws(y),
    decreases y.len(),
{
    if is_ws(y.last()) {
        assert(!is_blank(y.drop_last())) by {
            let i = choose|i: int| 0 <= i < y.len() && !is_ws(#[trigger] y[i]);
            assert(y.drop_last()[i] == y[i]);
        }
        assert((x + y).drop_last() =~= x + y.drop_last());
        lemma_trailing_ws_concat(x, y.drop_last());
    }
}

/// Gluing a non-blank text after a non-blank chunk never shrinks the chunk's
/// trimmed size.
proof fn lemma_trimmed_glue(a: Seq<char>, b: Seq<char>)
    requires
        !is_blank(a),
        !is_blank(b),
    ensures
        trimmed_size(glue(a, b)) >= trimmed_size(a),
{
    reveal(trimmed_size);
    let g = glue(a, b);
    let nb = seq!['\n'] + b;
    assert(g =~= a + nb);
    lemma_leading_ws_concat(a, nb);
    lemma_leading_ws(a);
    let la = leading_ws(a) as int;
    let h = g.skip(la);
    let sa = a.skip(la);
    assert(h =~= (sa + seq!['\n']) + b);
    lemma_trailing_ws_concat(sa + seq!['\n'], b);
    lemma_trailing_ws(sa);
    lemma_trailing_ws(b);
    let tb = trailing_ws(b) as int;
    let ta = trailing_ws(sa) as int;
    let tg = trim(g);
    let t = trim(a);
    assert(t =~= sa.take(sa.len() - ta));
    assert(tg =~= h.take(h.len() - tb));
    assert(tg =~= t + tg.skip(t.len() as int));
    lemma_byte_len_concat(t, tg.skip(t.len() as int));
}

/// The merge after the first `k` chunks: settled chunks are non-blank and
/// not short, a pending chunk is non-blank, and nothing is held exactly when
/// every chunk so far was blank.
proof fn lemma_merge_shape(cs: Seq<SpecChunk>, k: int)
    requires
        0 <= k <= cs.len(),
    ensures
        ({
            let (res, pend) = merge_state(cs, k);
            &&& forall|m: int| 0 <= m < res.len() ==> !is_blank(#[trigger] res[m].content)
                && trimmed_size(res[m].content) >= MIN_CHUNK_CHARS
            &&& (pend matches Some(p) ==> !is_blank(p.content))
            &&& (res.len() == 0 && pend is None <==> forall|j: int| 0 <= j < k ==> is_blank(#[trigger] cs[j].content))
        }),
    decreases k,
{
    if k > 0 {
        lemma_merge_shape(cs, k - 1);
        reveal(merge_step);
        let (res, pend) = merge_state(cs, k - 1);
        let c = cs[k - 1];
        if !is_blank(c.content) {
            if let Some(s) = pend {
                lemma_glue_contains(s.content, c.content);
                lemma_contains_nonblank(glue(s.content, c.content), c.content);
            }
            let (r2, p2) = merge_state(cs, k);
            assert forall|m: int| 0 <= m < r2.len() implies !is_blank(#[trigger] r2[m].content)
                && trimmed_size(r2[m].content) >= MIN_CHUNK_CHARS by {
                if m < res.len() {
                    assert(r2[m] == res[m]);
                }
            }
        } else {
            assert forall|j: int| 0 <= j < k - 1 && is_blank(#[trigger] cs[j].content) implies true by {}
        }
    }
}

/// A property of chunk text that survives gluing, held by every input chunk
/// of one kind, is held by every merged chunk, which keeps that kind.
pub proof fn lemma_merge_keeps(cs: Seq<SpecChunk>, k: int, good: spec_fn(Seq<char>) -> bool, kind: ChunkKind)
    requires
        0 <= k <= cs.len(),
        forall|a: Seq<char>, b: Seq<char>| good(a) && good(b) ==> #[trigger] good(glue(a, b)),
        forall|j: int| #![trigger cs[j]] 0 <= j < cs.len() ==> good(cs[j].content) && cs[j].kind == kind,
    ensures
        ({
            let (res, pend) = merge_state(cs, k);
            &&& forall|m: int| #![trigger res[m]] 0 <= m < res.len() ==> good(res[m].content) && res[m].kind == kind
            &&& (pend matches Some(p) ==> good(p.content) && p.kind == kind)
        }),
    decreases k,
{
    if k > 0 {
        lemma_merge_keeps(cs, k - 1, good, kind);
        reveal(merge_step);
        let (res, pend) = merge_state(cs, k - 1);
        let c = cs[k - 1];
        assert(good(c.content));
        if let Some(s) = pend {
            assert(good(glue(s.content, c.content)));
        }
        let (r2, p2) = merge_state(cs, k);
        assert forall|m: int| #![trigger r2[m]] 0 <= m < r2.len() implies good(r2[m].content) && r2[m].kind == kind by {
            if m < res.len() {
                assert(r2[m] == res[m]);
            }
        }
    }
}

/// Merging leaves no blank chunk; only a sole chunk may stay short; and it
/// yields nothing exactly when every input chunk is blank.
pub proof fn law_merge_short_chunks(cs: Seq<SpecChunk>)
    ensures
        ({
            let out = merge_spec(cs);
            &&& forall|k: int| 0 <= k < out.len() ==> !is_blank(#[trigger] out[k].content)
            &&& out.len() >= 2 ==> forall|k: int| 0 <= k < out.len() ==> trimmed_size(#[trigger] out[k].content) >= MIN_CHUNK_CHARS
            &&& (out.len() == 0 <==> forall|j: int| 0 <= j < cs.len() ==> is_blank(#[trigger] cs[j].content))
        }),
{
    lemma_merge_shape(cs, cs.len() as int);
    let (res, pend) = merge_state(cs, cs.len() as int);
    let out = merge_spec(cs);
    if let Some(s) = pend {
        if res.len() > 0 {
            let last = res.last();
            assert(!is_blank(last.content));
            lemma_trimmed_glue(last.content, s.content);
            lemma_glue_contains(last.content, s.content);
            lemma_contains_nonblank(glue(last.content, s.content), last.content);
            assert forall|k: int| 0 <= k < out.len() implies !is_blank(#[trigger] out[k].content)
                && trimmed_size(out[k].content) >= MIN_CHUNK_CHARS by {
                if k < res.len() - 1 {
                    assert(out[k] == res[k]);
                }
            }
        }
    }
}


// ─── Plain-text chunks are paragraphs ────────────────────────────────────────

/// No line of `s` is blank: the last unfinished piece is non-blank, and so
/// is every finished line once its `'\r'` is dropped.
pub open spec fn no_blank_line(s: Seq<char>) -> bool {
    let (done, cur) = split_nl(s);
    &&& !is_blank(cur)
    &&& forall|i: int| 0 <= i < done.len() ==> !is_blank(strip_cr(#[trigger] done[i]))
}

pub open spec fn has_no_newline(s: Seq<char>) -> bool {
    forall|i: int| 0 <= i < s.len() ==> #[trigger] s[i] != '\n'
}

proof fn lemma_split_append(s: Seq<char>, t: Seq<char>)
    requires
        has_no_newline(t),
    ensures
        split_nl(s + t) == (split_nl(s).0, split_nl(s).1 + t),
    decreases t.len(),
{
    if t.len() == 0 {
        assert(s + t =~= s);
        assert(split_nl(s).1 + t =~= split_nl(s).1);
    } else {
        assert((s + t).drop_last() =~= s + t.drop_last());
        assert((s + t).last() == t.last());
        assert(t[t.len() - 1] != '\n');
        lemma_split_append(s, t.drop_last());
        assert((split_nl(s).1 + t.drop_last()).push(t.last()) =~= split_nl(s).1 + t);
    }
}

proof fn lemma_split_glue(x: Seq<char>, y: Seq<char>)
    ensures
        split_nl(glue(x, y)) == (split_nl(x).0.push(split_nl(x).1) + split_nl(y).0, split_nl(y).1),
    decreases y.len(),
{
    let (dx, cx) = split_nl(x);
    if y.len() == 0 {
        assert(glue(x, y).drop_last() =~= x);
        assert(split_nl(y).0 =~= Seq::<Seq<char>>::empty());
        assert(dx.push(cx) + split_nl(y).0 =~= dx.push(cx));
    } else {
        assert(glue(x, y).drop_last() =~= glue(x, y.drop_last()));
        lemma_split_glue(x, y.drop_last());
        let (dy, cy) = split_nl(y.drop_last());
        if y.last() == '\n' {
            assert((dx.push(cx) + dy).push(cy) =~= dx.push(cx) + dy.push(cy));
        }
    }
}

proof fn lemma_strip_cr_blank(l: Seq<char>)
    requires
        !is_blank(l),
    ensures
        !is_blank(strip_cr(l)),
{
    if l.len() > 0 && l.last() == '\r' {
        let i = choose|i: int| 0 <= i < l.len() && !is_ws(#[trigger] l[i]);
        assert(is_ws('\r'));
        assert(strip_cr(l)[i] == l[i]);
    }
}

proof fn lemma_no_blank_glue(a: Seq<char>, b: Seq<char>)
    requires
        no_blank_line(a),
        no_blank_line(b),
    ensures
        no_blank_line(glue(a, b)),
{
    lemma_split_glue(a, b);
    let (da, ca) = split_nl(a);
    let (db, cb) = split_nl(b);
    lemma_strip_cr_blank(ca);
    let d = da.push(ca) + db;
    assert forall|i: int| 0 <= i < d.len() implies !is_blank(strip_cr(#[trigger] d[i])) by {
        if i < da.len() {
            assert(d[i] == da[i]);
        } else if i > da.len() {
            assert(d[i] == db[i - da.len() - 1]);
        }
    }
}

/// The join of non-empty, non-blank lines without newlines has no blank line.
proof fn lemma_no_blank_join(w: Seq<Seq<char>>)
    requires
        w.len() > 0,
        forall|j: int| 0 <= j < w.len() ==> !is_blank(#[trigger] w[j]) && has_no_newline(w[j]),
    ensures
        no_blank_line(join_lines(w)),
    decreases w.len(),
{
    let l = w.last();
    assert(!is_blank(l) && has_no_newline(l));
    lemma_split_append(Seq::empty(), l);
    assert(Seq::<char>::empty() + l =~= l);
    if w.len() == 1 {
        assert(join_lines(w) == w[0]);
    } else {
        let w2 = w.drop_last();
        assert forall|j: int| 0 <= j < w2.len() implies !is_blank(#[trigger] w2[j]) && has_no_newline(w2[j]) by {
            assert(w2[j] == w[j]);
        }
        lemma_no_blank_join(w2);
        lemma_no_blank_glue(join_lines(w2), l);
    }
}

/// No line of a text contains a newline.
proof fn lemma_lines_no_newline(s: Seq<char>)
    ensures
        forall|j: int| 0 <= j < lines_of(s).len() ==> has_no_newline(#[trigger] lines_of(s)[j]),
{
    lemma_split_nl_no_newline(s);
    let (done, cur) = split_nl(s);
    let ls = lines_of(s);
    assert forall|j: int| 0 <= j < ls.len() implies has_no_newline(#[trigger] ls[j]) by {
        if j < done.len() {
            let d = done[j];
            assert(has_no_newline(d));
            assert forall|i: int| 0 <= i < strip_cr(d).len() implies #[trigger] strip_cr(d)[i] != '\n' by {
                assert(strip_cr(d)[i] == d[i]);
            }
        }
    }
}

proof fn lemma_split_nl_no_newline(s: Seq<char>)
    ensures
        has_no_newline(split_nl(s).1),
        forall|j: int| 0 <= j < split_nl(s).0.len() ==> has_no_newline(#[trigger] split_nl(s).0[j]),
    decreases s.len(),
{
    if s.len() > 0 {
        lemma_split_nl_no_newline(s.drop_last());
        let (done, cur) = split_nl(s.drop_last());
        if s.last() != '\n' {
            assert forall|i: int| 0 <= i < cur.push(s.last()).len() implies #[trigger] cur.push(s.last())[i] != '\n' by {
                if i < cur.len() {
                    assert(cur.push(s.last())[i] == cur[i]);
                }
            }
        } else {
            assert forall|j: int| 0 <= j < done.push(cur).len() implies has_no_newline(#[trigger] done.push(cur)[j]) by {
                if j < done.len() {
                    assert(done.push(cur)[j] == done[j]);
                }
            }
        }
    }
}

/// A text chunk of lines `lo..hi` that are all non-blank has no blank line.
proof fn lemma_flushed_paragraph(ls: Seq<Seq<char>>, lo: int, hi: int)
    requires
        0 <= lo <= hi <= ls.len(),
        forall|j: int| lo <= j < hi ==> !is_blank(#[trigger] ls[j]) && has_no_newline(ls[j]),
    ensures
        forall|k: int| #![trigger flushed(ls, lo, hi, ChunkKind::Paragraph)[k]]
            0 <= k < flushed(ls, lo, hi, ChunkKind::Paragraph).len()
            ==> no_blank_line(flushed(ls, lo, hi, ChunkKind::Paragraph)[k].content)
                && flushed(ls, lo, hi, ChunkKind::Paragraph)[k].kind == ChunkKind::Paragraph,
{
    if lo < hi {
        let w = ls.subrange(lo, hi);
        assert forall|j: int| 0 <= j < w.len() implies !is_blank(#[trigger] w[j]) && has_no_newline(w[j]) by {
            assert(w[j] == ls[lo + j]);
        }
        lemma_no_blank_join(w);
    }
}

/// The text chunker's state after `i` lines: every chunk so far is a
/// paragraph with no blank line, and the open window holds only non-blank
/// lines.
proof fn lemma_text_paragraphs(ls: Seq<Seq<char>>, i: int)
    requires
        0 <= i <= ls.len(),
        forall|j: int| 0 <= j < ls.len() ==> has_no_newline(#[trigger] ls[j]),
    ensures
        ({
            let (acc, lo) = text_state(ls, i);
            &&& 0 <= lo <= i
            &&& forall|j: int| lo <= j < i ==> !is_blank(#[trigger] ls[j])
            &&& forall|k: int| #![trigger acc[k]] 0 <= k < acc.len() ==> no_blank_line(acc[k].content) && acc[k].kind == ChunkKind::Paragraph
        }),
    decreases i,
{
    if i > 0 {
        lemma_text_paragraphs(ls, i - 1);
        let (acc, lo) = text_state(ls, i - 1);
        let hi = if is_blank(ls[i - 1]) { i - 1 } else { i };
        lemma_flushed_paragraph(ls, lo, hi);
        let f = flushed(ls, lo, hi, ChunkKind::Paragraph);
        let acc2 = acc + f;
        assert forall|k: int| #![trigger acc2[k]] 0 <= k < acc2.len() implies no_blank_line(acc2[k].content) && acc2[k].kind == ChunkKind::Paragraph by {
            if k < acc.len() {
                assert(acc2[k] == acc[k]);
            } else {
                assert(acc2[k] == f[k - acc.len()]);
            }
        }
    }
}

/// Plain-text chunks are all paragraphs, and no line inside one is blank.
pub proof fn law_chunk_text_paragraphs(content: Seq<char>)
    ensures
        ({
            let out = spec_chunk_text(content);
            forall|k: int| #![trigger out[k]] 0 <= k < out.len() ==> {
                &&& out[k].kind == ChunkKind::Paragraph
                &&& forall|j: int| 0 <= j < lines_of(out[k].content).len()
                    ==> !is_blank(#[trigger] lines_of(out[k].content)[j])
            }
        }),
{
    let ls = lines_of(content);
    let n = ls.len() as int;
    lemma_lines_no_newline(content);
    lemma_text_paragraphs(ls, n);
    let (acc, lo) = text_state(ls, n);
    lemma_flushed_paragraph(ls, lo, n);
    let pieces = text_pieces(ls);
    let f = flushed(ls, lo, n, ChunkKind::Paragraph);
    assert(pieces == acc + f);
    assert forall|j: int| #![trigger pieces[j]] 0 <= j < pieces.len() implies no_blank_line(pieces[j].content) && pieces[j].kind == ChunkKind::Paragraph by {
        if j < acc.len() {
            assert(pieces[j] == acc[j]);
        } else {
            assert(pieces[j] == f[j - acc.len()]);
        }
    }
    let good = |s: Seq<char>| no_blank_line(s);
    assert forall|a: Seq<char>, b: Seq<char>| good(a) && good(b) implies #[trigger] good(glue(a, b)) by {
        lemma_no_blank_glue(a, b);
    }
    lemma_merge_keeps(pieces, pieces.len() as int, good, ChunkKind::Paragraph);
    let (res, pend) = merge_state(pieces, pieces.len() as int);
    let merged = merge_spec(pieces);
    if let Some(p) = pend {
        if res.len() > 0 {
            lemma_no_blank_glue(res.last().content, p.content);
            assert forall|k: int| #![trigger merged[k]] 0 <= k < merged.len() implies no_blank_line(merged[k].content) && merged[k].kind == ChunkKind::Paragraph by {
                if k < res.len() - 1 {
                    assert(merged[k] == res[k]);
                }
            }
        }
    }
    assert forall|k: int| #![trigger merged[k]] 0 <= k < merged.len() implies no_blank_line(merged[k].content) && merged[k].kind == ChunkKind::Paragraph by {
        if pend is None {
            assert(merged[k] == res[k]);
        }
    }
    // A non-blank text always yields pieces, so the whole-file fallback
    // never applies.
    lemma_text_inv(ls, n);
    lemma_flush_extend(ls, acc, lo, n, ChunkKind::Paragraph);
    lemma_merge(pieces, n);
    if !is_blank(content) {
        lemma_pieces_nonempty(content, pieces);
    }
    let out = spec_chunk_text(content);
    assert(out == merged);
    assert forall|k: int| #![trigger out[k]] 0 <= k < out.len() implies {
        &&& out[k].kind == ChunkKind::Paragraph
        &&& forall|j: int| 0 <= j < lines_of(out[k].content).len()
            ==> !is_blank(#[trigger] lines_of(out[k].content)[j])
    } by {
        let c = out[k].content;
        assert(no_blank_line(c));
        let (d, cur) = split_nl(c);
        assert(cur.len() > 0);
        assert forall|j: int| 0 <= j < lines_of(c).len() implies !is_blank(#[trigger] lines_of(c)[j]) by {
            if j < d.len() {
                assert(lines_of(c)[j] == strip_cr(d[j]));
            }
        }
    }
}

} // verus!

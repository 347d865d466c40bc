//! Chunking: splits a file into semantic chunks for indexing.
//!
//! Strategies:
//! - Markdown (.md): headings, code blocks, frontmatter
//! - Code (.rs, .py, .ts, …): function/class boundaries, 100-line cap
//! - Text (everything else): paragraphs
//!
//! Every strategy works on the lines of the file (`lines_of`), keeps a
//! window `lines[lo..i)` of pending lines, flushes windows into chunks,
//! then folds chunks that are too short into their neighbours
//! (`merge_spec`).
use vstd::prelude::*;

use crate::config::KbType;
use crate::text::{
    all_whitespace, append_chars, chars_eq_str, byte_len, byte_len_capped, from_chars, is_blank, join_lines,
    join_range, lines_of, split_lines, starts_with, starts_with_chars, string_of, sub_chars,
    to_chars, trim, trim_chars, trim_start, trim_start_chars, views, str_views, is_one_of,
    to_lowercase, spec_lowercase,
};
use crate::paths::{path_extension, spec_extension};

verus! {

/// Minimum chunk size in bytes (avoid tiny fragments).
pub const MIN_CHUNK_CHARS: usize = 30;

/// Maximum chunk size in bytes (~2000 tokens at ~4 bytes/token).
pub const MAX_CHUNK_CHARS: usize = 8000;

/// Most lines a code chunk holds before it is cut.
pub const MAX_CODE_LINES: usize = 100;

/// The kind of a chunk.
#[derive(Debug, Clone, Copy, PartialEq, Eq)]
pub enum ChunkKind {
    HeadingSection,
    Paragraph,
    CodeBlock,
    Frontmatter,
    Function,
}

/// The name a chunk kind carries in `Chunk::chunk_type`.
pub open spec fn kind_name(k: ChunkKind) -> Seq<char> {
    match k {
        ChunkKind::HeadingSection => "heading_section"@,
        ChunkKind::Paragraph => "paragraph"@,
        ChunkKind::CodeBlock => "code_block"@,
        ChunkKind::Frontmatter => "frontmatter"@,
        ChunkKind::Function => "function"@,
    }
}

/// The name of a chunk kind, as a `String`.
pub fn kind_string(k: ChunkKind) -> (r: String)
    ensures
        r@ == kind_name(k),
{
    match k {
        ChunkKind::HeadingSection => string_of("heading_section"),
        ChunkKind::Paragraph => string_of("paragraph"),
        ChunkKind::CodeBlock => string_of("code_block"),
        ChunkKind::Frontmatter => string_of("frontmatter"),
        ChunkKind::Function => string_of("function"),
    }
}

/// A single semantic chunk extracted from a document.
#[derive(Debug, Clone)]
pub struct Chunk {
    pub content: String,
    /// 1-indexed, inclusive
    pub line_start: usize,
    /// 1-indexed, inclusive
    pub line_end: usize,
    /// One of: "heading_section", "paragraph", "code_block", "frontmatter", "function"
    pub chunk_type: String,
}

/// The mathematical content of a chunk.
pub struct SpecChunk {
    pub content: Seq<char>,
    pub line_start: int,
    pub line_end: int,
    pub kind: ChunkKind,
}

/// A chunk while it is being built: its text as characters.
pub struct Piece {
    pub content: Vec<char>,
    pub line_start: usize,
    pub line_end: usize,
    pub kind: ChunkKind,
}

impl Piece {
    pub open spec fn spec(&self) -> SpecChunk {
        SpecChunk {
            content: self.content@,
            line_start: self.line_start as int,
            line_end: self.line_end as int,
            kind: self.kind,
        }
    }
}

/// The specs of a sequence of pieces.
pub open spec fn pieces_spec(v: Seq<Piece>) -> Seq<SpecChunk> {
    Seq::new(v.len(), |i: int| v[i].spec())
}

/// A public chunk holds exactly the spec chunk `s`.
pub open spec fn chunk_matches(c: Chunk, s: SpecChunk) -> bool {
    &&& c.content@ == s.content
    &&& c.line_start == s.line_start
    &&& c.line_end == s.line_end
    &&& c.chunk_type@ == kind_name(s.kind)
}

/// The public chunks hold exactly the spec chunks `s`, in order.
pub open spec fn chunks_match(v: Seq<Chunk>, s: Seq<SpecChunk>) -> bool {
    &&& v.len() == s.len()
    &&& forall|i: int| 0 <= i < v.len() ==> #[trigger] chunk_matches(v[i], s[i])
}

// ─── Sizes ───────────────────────────────────────────────────────────────────

/// Total size of a window of lines: each line's bytes plus one for its
/// newline.
pub open spec fn chars_size(ls: Seq<Seq<char>>) -> nat
    decreases ls.len(),
{
    if ls.len() == 0 {
        0
    } else {
        chars_size(ls.drop_last()) + byte_len(ls.last()) + 1
    }
}

/// `chars_size(lines[lo..hi)) > MAX_CHUNK_CHARS`, computed without overflow.
fn window_oversized(lines: &Vec<Vec<char>>, lo: usize, hi: usize) -> (r: bool)
    requires
        lo <= hi <= lines.len(),
    ensures
        r == (chars_size(views(lines@).subrange(lo as int, hi as int)) > MAX_CHUNK_CHARS),
{
    let ghost ls = views(lines@);
    let mut total: usize = 0;
    let mut i = lo;
    while i < hi
        invariant
            lo <= i <= hi <= lines.len(),
            ls == views(lines@),
            total == if chars_size(ls.subrange(lo as int, i as int)) <= MAX_CHUNK_CHARS {
                chars_size(ls.subrange(lo as int, i as int))
            } else {
                (MAX_CHUNK_CHARS + 1) as nat
            },
        decreases hi - i,
    {
        assert(ls.subrange(lo as int, i + 1).drop_last() == ls.subrange(lo as int, i as int));
        let w = byte_len_capped(&lines[i], MAX_CHUNK_CHARS + 1);
        if total > MAX_CHUNK_CHARS || w + 1 > MAX_CHUNK_CHARS + 1 - total {
            total = MAX_CHUNK_CHARS + 1;
        } else {
            total = total + w + 1;
        }
        i = i + 1;
    }
    total > MAX_CHUNK_CHARS
}

/// Total size of the lines: each line's bytes plus one (`char_size`).
pub fn char_size(lines: &Vec<Vec<char>>) -> (r: usize)
    requires
        chars_size(views(lines@)) <= usize::MAX,
    ensures
        r == chars_size(views(lines@)),
{
    let ghost ls = views(lines@);
    let mut total: usize = 0;
    let mut i: usize = 0;
    while i < lines.len()
        invariant
            i <= lines.len(),
            ls == views(lines@),
            chars_size(ls) <= usize::MAX,
            total == chars_size(ls.subrange(0, i as int)),
        decreases lines.len() - i,
    {
        assert(ls.subrange(0, i + 1).drop_last() == ls.subrange(0, i as int));
        proof {
            lemma_chars_size_prefix(ls, i + 1);
        }
        let w = byte_len_capped(&lines[i], usize::MAX);
        proof {
            lemma_byte_len_le_chars_size(ls, i as int);
        }
        total = total + w + 1;
        i = i + 1;
    }
    assert(ls.subrange(0, lines.len() as int) == ls);
    total
}

pub proof fn lemma_chars_size_prefix(ls: Seq<Seq<char>>, k: int)
    requires
        0 <= k <= ls.len(),
    ensures
        chars_size(ls.subrange(0, k)) <= chars_size(ls),
    decreases ls.len(),
{
    if k < ls.len() {
        assert(ls.drop_last().subrange(0, k) == ls.subrange(0, k));
        lemma_chars_size_prefix(ls.drop_last(), k);
    } else {
        assert(ls.subrange(0, k) == ls);
    }
}

pub proof fn lemma_byte_len_le_chars_size(ls: Seq<Seq<char>>, i: int)
    requires
        0 <= i < ls.len(),
    ensures
        chars_size(ls.subrange(0, i)) + byte_len(ls[i]) + 1 == chars_size(ls.subrange(0, i + 1)),
{
    assert(ls.subrange(0, i + 1).drop_last() == ls.subrange(0, i));
}

// ─── Flushing a window ───────────────────────────────────────────────────────

/// The chunk a window `lines[lo..hi)` flushes into: none when the window is
/// empty or holds only whitespace.
pub open spec fn flushed(ls: Seq<Seq<char>>, lo: int, hi: int, kind: ChunkKind) -> Seq<SpecChunk> {
    let content = join_lines(ls.subrange(lo, hi));
    if lo < hi && !is_blank(content) {
        seq![SpecChunk { content, line_start: lo + 1, line_end: hi, kind }]
    } else {
        Seq::empty()
    }
}

/// Pushes the chunk of the window `lines[lo..hi)` unless it is empty or blank.
fn flush_chunk(acc: &mut Vec<Piece>, lines: &Vec<Vec<char>>, lo: usize, hi: usize, kind: ChunkKind)
    requires
        lo <= hi <= lines.len(),
    ensures
        pieces_spec(final(acc)@) == pieces_spec(old(acc)@) + flushed(views(lines@), lo as int, hi as int, kind),
{
    if lo >= hi {
        assert(pieces_spec(acc@) =~= pieces_spec(old(acc)@) + flushed(views(lines@), lo as int, hi as int, kind));
        return;
    }
    let content = join_range(lines, lo, hi);
    if all_whitespace(&content) {
        assert(pieces_spec(acc@) =~= pieces_spec(old(acc)@) + flushed(views(lines@), lo as int, hi as int, kind));
        return;
    }
    let ghost before = acc@;
    acc.push(Piece { content, line_start: lo + 1, line_end: hi, kind });
    assert(pieces_spec(acc@) =~= pieces_spec(before) + flushed(views(lines@), lo as int, hi as int, kind));
}

// ─── Merging short chunks ────────────────────────────────────────────────────

/// Bytes of a chunk's text once trimmed.
#[verifier::opaque]
pub open spec fn trimmed_size(s: Seq<char>) -> nat {
    byte_len(trim(s))
}

/// Whether `trimmed_size(s) < MIN_CHUNK_CHARS`.
fn is_short(s: &Vec<char>) -> (r: bool)
    ensures
        r == (trimmed_size(s@) < MIN_CHUNK_CHARS),
{
    reveal(trimmed_size);
    let t = trim_chars(s);
    byte_len_capped(&t, MIN_CHUNK_CHARS) < MIN_CHUNK_CHARS
}

/// `a` and `b` glued with a newline (`format!("{}\n{}", a, b)`).
pub open spec fn glue(a: Seq<char>, b: Seq<char>) -> Seq<char> {
    a + seq!['\n'] + b
}

#[verifier::opaque]
/// One step of merging: `c` meets the accumulated result and the pending
/// short chunk.
pub open spec fn merge_step(res: Seq<SpecChunk>, pend: Option<SpecChunk>, c: SpecChunk) -> (
    Seq<SpecChunk>,
    Option<SpecChunk>,
) {
    if is_blank(c.content) {
        (res, pend)
    } else {
        match pend {
            None => if trimmed_size(c.content) < MIN_CHUNK_CHARS {
                (res, Some(c))
            } else {
                (res.push(c), None)
            },
            Some(s) => {
                let m = SpecChunk {
                    content: glue(s.content, c.content),
                    line_start: s.line_start,
                    line_end: c.line_end,
                    kind: c.kind,
                };
                if trimmed_size(m.content) < MIN_CHUNK_CHARS {
                    (res, Some(m))
                } else {
                    (res.push(m), None)
                }
            },
        }
    }
}

/// The merge state after the first `k` chunks.
pub open spec fn merge_state(cs: Seq<SpecChunk>, k: int) -> (Seq<SpecChunk>, Option<SpecChunk>)
    decreases k,
{
    if k <= 0 {
        (Seq::empty(), None)
    } else {
        let (res, pend) = merge_state(cs, k - 1);
        merge_step(res, pend, cs[k - 1])
    }
}

/// Short chunks are prepended to the next chunk, or appended to the previous
/// one when none follows; whitespace-only chunks are dropped.
pub open spec fn merge_spec(cs: Seq<SpecChunk>) -> Seq<SpecChunk> {
    let (res, pend) = merge_state(cs, cs.len() as int);
    match pend {
        None => res,
        Some(s) => if res.len() > 0 {
            let last = res.last();
            res.update(
                res.len() - 1,
                SpecChunk {
                    content: glue(last.content, s.content),
                    line_start: last.line_start,
                    line_end: s.line_end,
                    kind: last.kind,
                },
            )
        } else {
            seq![s]
        },
    }
}

fn glue_vec(a: Vec<char>, b: &Vec<char>) -> (r: Vec<char>)
    ensures
        r@ == glue(a@, b@),
{
    let mut a = a;
    a.push('\n');
    append_chars(&mut a, b);
    a
}

/// Merge chunks shorter than `MIN_CHUNK_CHARS` into adjacent chunks.
pub fn merge_short_chunks(chunks: Vec<Piece>) -> (r: Vec<Piece>)
    ensures
        pieces_spec(r@) == merge_spec(pieces_spec(chunks@)),
{
    let ghost cs = pieces_spec(chunks@);
    let mut rest = chunks;
    let mut result: Vec<Piece> = Vec::new();
    let mut pending: Option<Piece> = None;
    let mut k: usize = 0;
    let total = rest.len();
    while rest.len() > 0
        invariant
            total == cs.len(),
            k + rest.len() == cs.len(),
            pieces_spec(rest@) == cs.subrange(k as int, cs.len() as int),
            (pieces_spec(result@), match pending {
                None => None,
                Some(p) => Some(p.spec()),
            }) == merge_state(cs, k as int),
        decreases rest.len(),
    {
        proof {
            reveal(merge_step);
        }
        let ghost rest_before = rest@;
        let c = rest.remove(0);
        assert(c.spec() == cs[k as int]) by {
            assert(pieces_spec(rest_before)[0] == c.spec());
        }
        assert(pieces_spec(rest@) =~= cs.subrange(k + 1, cs.len() as int)) by {
            assert forall|j: int| 0 <= j < rest@.len() implies pieces_spec(rest@)[j] == cs.subrange(k + 1, cs.len() as int)[j] by {
                assert(rest@[j] == rest_before[j + 1]);
                assert(pieces_spec(rest_before)[j + 1] == cs.subrange(k as int, cs.len() as int)[j + 1]);
            }
        }
        let ghost res_before = pieces_spec(result@);
        if !all_whitespace(&c.content) {
            let prev = pending;
            pending = None;
            match prev {
                None => {
                    if is_short(&c.content) {
                        pending = Some(c);
                    } else {
                        result.push(c);
                        assert(pieces_spec(result@) =~= res_before.push(c.spec()));
                    }
                },
                Some(s) => {
                    let merged = Piece {
                        content: glue_vec(s.content, &c.content),
                        line_start: s.line_start,
                        line_end: c.line_end,
                        kind: c.kind,
                    };
                    if is_short(&merged.content) {
                        pending = Some(merged);
                    } else {
                        result.push(merged);
                        assert(pieces_spec(result@) =~= res_before.push(merged.spec()));
                    }
                },
            }
        }
        k = k + 1;
    }
    match pending {
        None => result,
        Some(s) => {
            if result.len() > 0 {
                let ghost res_before = pieces_spec(result@);
                let mut last = result.pop().unwrap();
                last.content = glue_vec(last.content, &s.content);
                last.line_end = s.line_end;
                result.push(last);
                assert(pieces_spec(result@) =~= merge_spec(cs));
                result
            } else {
                let mut r: Vec<Piece> = Vec::new();
                r.push(s);
                assert(pieces_spec(r@) =~= merge_spec(cs));
                r
            }
        },
    }
}

/// When nothing was produced from a non-blank file, the whole file is one
/// chunk.
pub open spec fn with_fallback(content: Seq<char>, cs: Seq<SpecChunk>, kind: ChunkKind) -> Seq<SpecChunk> {
    let n = lines_of(content).len();
    if cs.len() == 0 && !is_blank(content) {
        seq![SpecChunk { content, line_start: 1, line_end: if n >= 1 { n as int } else { 1 }, kind }]
    } else {
        cs
    }
}

/// Turns pieces into public chunks.
fn to_chunks(pieces: Vec<Piece>) -> (r: Vec<Chunk>)
    ensures
        chunks_match(r@, pieces_spec(pieces@)),
{
    let ghost ps = pieces_spec(pieces@);
    let mut rest = pieces;
    let mut out: Vec<Chunk> = Vec::new();
    while rest.len() > 0
        invariant
            out.len() + rest.len() == ps.len(),
            pieces_spec(rest@) == ps.subrange(out.len() as int, ps.len() as int),
            forall|i: int| 0 <= i < out.len() ==> #[trigger] chunk_matches(out@[i], ps[i]),
        decreases rest.len(),
    {
        let ghost rest_before = rest@;
        let ghost n = out.len();
        let p = rest.remove(0);
        assert(p.spec() == ps[n as int]) by {
            assert(pieces_spec(rest_before)[0] == p.spec());
        }
        assert(pieces_spec(rest@) =~= ps.subrange(n + 1, ps.len() as int)) by {
            assert forall|j: int| 0 <= j < rest@.len() implies pieces_spec(rest@)[j] == ps.subrange(n + 1, ps.len() as int)[j] by {
                assert(rest@[j] == rest_before[j + 1]);
                assert(pieces_spec(rest_before)[j + 1] == ps.subrange(n as int, ps.len() as int)[j + 1]);
            }
        }
        let c = Chunk {
            content: from_chars(&p.content),
            line_start: p.line_start,
            line_end: p.line_end,
            chunk_type: kind_string(p.kind),
        };
        out.push(c);
    }
    out
}

/// Applies the whole-file fallback and turns pieces into public chunks.
fn finish(content: &Vec<char>, n_lines: usize, merged: Vec<Piece>, kind: ChunkKind) -> (r: Vec<Chunk>)
    requires
        n_lines == lines_of(content@).len(),
    ensures
        chunks_match(r@, with_fallback(content@, pieces_spec(merged@), kind)),
{
    if merged.len() == 0 && !all_whitespace(content) {
        let mut v: Vec<Piece> = Vec::new();
        let c2 = sub_chars(content, 0, content.len());
        assert(c2@ =~= content@);
        v.push(Piece { content: c2, line_start: 1, line_end: if n_lines >= 1 { n_lines } else { 1 }, kind });
        assert(pieces_spec(v@) =~= with_fallback(content@, pieces_spec(merged@), kind));
        to_chunks(v)
    } else {
        to_chunks(merged)
    }
}

// ─── Plain text ──────────────────────────────────────────────────────────────

/// One line of the text chunker: blank lines end a paragraph; a paragraph
/// that outgrows `MAX_CHUNK_CHARS` is cut after the line.
pub open spec fn text_step(ls: Seq<Seq<char>>, i: int, acc: Seq<SpecChunk>, lo: int) -> (Seq<SpecChunk>, int) {
    if is_blank(ls[i]) {
        (acc + flushed(ls, lo, i, ChunkKind::Paragraph), i + 1)
    } else if chars_size(ls.subrange(lo, i + 1)) > MAX_CHUNK_CHARS {
        (acc + flushed(ls, lo, i + 1, ChunkKind::Paragraph), i + 1)
    } else {
        (acc, lo)
    }
}

/// The text chunker's chunks and window start after the first `i` lines.
pub open spec fn text_state(ls: Seq<Seq<char>>, i: int) -> (Seq<SpecChunk>, int)
    decreases i,
{
    if i <= 0 {
        (Seq::empty(), 0)
    } else {
        let (acc, lo) = text_state(ls, i - 1);
        text_step(ls, i - 1, acc, lo)
    }
}

/// The paragraph chunks of a text, before merging.
pub open spec fn text_pieces(ls: Seq<Seq<char>>) -> Seq<SpecChunk> {
    let (acc, lo) = text_state(ls, ls.len() as int);
    acc + flushed(ls, lo, ls.len() as int, ChunkKind::Paragraph)
}

/// The chunks of a plain text file.
pub open spec fn spec_chunk_text(content: Seq<char>) -> Seq<SpecChunk> {
    with_fallback(content, merge_spec(text_pieces(lines_of(content))), ChunkKind::Paragraph)
}

pub proof fn lemma_text_state_lo(ls: Seq<Seq<char>>, i: int)
    requires
        0 <= i <= ls.len(),
    ensures
        0 <= text_state(ls, i).1 <= i,
    decreases i,
{
    if i > 0 {
        lemma_text_state_lo(ls, i - 1);
    }
}

/// Split plain text on paragraph breaks (blank lines).
pub fn chunk_text(content: &str) -> (r: Vec<Chunk>)
    ensures
        chunks_match(r@, spec_chunk_text(content@)),
{
    let chars = to_chars(content);
    let lines = split_lines(&chars);
    let ghost ls = views(lines@);
    let mut acc: Vec<Piece> = Vec::new();
    let mut lo: usize = 0;
    let mut i: usize = 0;
    while i < lines.len()
        invariant
            i <= lines.len(),
            ls == views(lines@),
            (pieces_spec(acc@), lo as int) == text_state(ls, i as int),
        decreases lines.len() - i,
    {
        proof {
            lemma_text_state_lo(ls, i as int);
        }
        if all_whitespace(&lines[i]) {
            flush_chunk(&mut acc, &lines, lo, i, ChunkKind::Paragraph);
            lo = i + 1;
        } else if window_oversized(&lines, lo, i + 1) {
            flush_chunk(&mut acc, &lines, lo, i + 1, ChunkKind::Paragraph);
            lo = i + 1;
        }
        i = i + 1;
    }
    proof {
        lemma_text_state_lo(ls, i as int);
    }
    flush_chunk(&mut acc, &lines, lo, lines.len(), ChunkKind::Paragraph);
    let merged = merge_short_chunks(acc);
    finish(&chars, lines.len(), merged, ChunkKind::Paragraph)
}

// ─── Code ────────────────────────────────────────────────────────────────────

/// Whether `s` starts with one of `prefixes`.
pub open spec fn starts_with_any_spec(s: Seq<char>, prefixes: Seq<Seq<char>>) -> bool {
    exists|j: int| 0 <= j < prefixes.len() && starts_with(s, #[trigger] prefixes[j])
}

/// Whether `s` starts with one of `prefixes`.
pub fn starts_with_any(s: &Vec<char>, prefixes: &[&str]) -> (r: bool)
    ensures
        r == starts_with_any_spec(s@, str_views(prefixes@)),
{
    let ghost ps = str_views(prefixes@);
    let mut j: usize = 0;
    while j < prefixes.len()
        invariant
            j <= prefixes.len(),
            ps == str_views(prefixes@),
            forall|k: int| 0 <= k < j ==> !starts_with(s@, #[trigger] ps[k]),
        decreases prefixes.len() - j,
    {
        if starts_with_chars(s, prefixes[j]) {
            assert(starts_with(s@, ps[j as int]));
            return true;
        }
        j = j + 1;
    }
    false
}

/// The line prefixes that open a new logical code unit: Rust, Python,
/// JS/TS, Go, Java/Kotlin/Swift.
pub open spec fn code_boundary_prefixes() -> Seq<Seq<char>> {
    seq![
        "fn "@, "pub fn "@, "async fn "@, "pub async fn "@, "impl "@, "pub impl "@,
        "struct "@, "pub struct "@, "enum "@, "pub enum "@, "trait "@, "pub trait "@,
        "mod "@, "pub mod "@,
        "def "@, "async def "@, "class "@,
        "function "@, "async function "@, "export function "@, "export async function "@,
        "export class "@, "export default function"@, "export default class"@,
        "func "@,
        "public class "@, "private class "@, "protected class "@, "fun "@,
    ]
}

/// A (trimmed) line that starts a new logical code unit.
pub open spec fn is_code_boundary_spec(trimmed: Seq<char>) -> bool {
    starts_with_any_spec(trimmed, code_boundary_prefixes())
}

fn is_code_boundary_chars(trimmed: &Vec<char>) -> (r: bool)
    ensures
        r == is_code_boundary_spec(trimmed@),
{
    let prefixes: [&str; 29] = [
        "fn ", "pub fn ", "async fn ", "pub async fn ", "impl ", "pub impl ",
        "struct ", "pub struct ", "enum ", "pub enum ", "trait ", "pub trait ",
        "mod ", "pub mod ",
        "def ", "async def ", "class ",
        "function ", "async function ", "export function ", "export async function ",
        "export class ", "export default function", "export default class",
        "func ",
        "public class ", "private class ", "protected class ", "fun ",
    ];
    let r = starts_with_any(trimmed, &prefixes);
    assert(str_views(prefixes@) =~= code_boundary_prefixes());
    r
}

/// Return true when a (trimmed) line starts a new logical code unit.
pub fn is_code_boundary(trimmed: &str) -> (r: bool)
    ensures
        r == is_code_boundary_spec(trimmed@),
{
    let c = to_chars(trimmed);
    is_code_boundary_chars(&c)
}

/// One line of the code chunker: a boundary line closes the pending unit;
/// a unit that outgrows `MAX_CHUNK_CHARS` or reaches `MAX_CODE_LINES` lines
/// is cut after the line.
pub open spec fn code_step(ls: Seq<Seq<char>>, i: int, acc: Seq<SpecChunk>, lo: int) -> (Seq<SpecChunk>, int) {
    let (acc1, lo1) = if is_code_boundary_spec(trim_start(ls[i])) && lo < i {
        (acc + flushed(ls, lo, i, ChunkKind::Function), i)
    } else {
        (acc, lo)
    };
    if chars_size(ls.subrange(lo1, i + 1)) > MAX_CHUNK_CHARS || i + 1 - lo1 >= MAX_CODE_LINES {
        (acc1 + flushed(ls, lo1, i + 1, ChunkKind::CodeBlock), i + 1)
    } else {
        (acc1, lo1)
    }
}

/// The code chunker's chunks and window start after the first `i` lines.
pub open spec fn code_state(ls: Seq<Seq<char>>, i: int) -> (Seq<SpecChunk>, int)
    decreases i,
{
    if i <= 0 {
        (Seq::empty(), 0)
    } else {
        let (acc, lo) = code_state(ls, i - 1);
        code_step(ls, i - 1, acc, lo)
    }
}

/// The code chunks of a source file, before merging.
pub open spec fn code_pieces(ls: Seq<Seq<char>>) -> Seq<SpecChunk> {
    let (acc, lo) = code_state(ls, ls.len() as int);
    acc + flushed(ls, lo, ls.len() as int, ChunkKind::Function)
}

/// The chunks of a source file.
pub open spec fn spec_chunk_code(content: Seq<char>) -> Seq<SpecChunk> {
    with_fallback(content, merge_spec(code_pieces(lines_of(content))), ChunkKind::CodeBlock)
}

pub proof fn lemma_code_state_lo(ls: Seq<Seq<char>>, i: int)
    requires
        0 <= i <= ls.len(),
    ensures
        0 <= code_state(ls, i).1 <= i,
    decreases i,
{
    if i > 0 {
        lemma_code_state_lo(ls, i - 1);
    }
}

/// Split code files on function/class/impl boundaries; cut units at
/// 100 lines or `MAX_CHUNK_CHARS`.
pub fn chunk_code(content: &str) -> (r: Vec<Chunk>)
    ensures
        chunks_match(r@, spec_chunk_code(content@)),
{
    let chars = to_chars(content);
    let lines = split_lines(&chars);
    let ghost ls = views(lines@);
    let mut acc: Vec<Piece> = Vec::new();
    let mut lo: usize = 0;
    let mut i: usize = 0;
    while i < lines.len()
        invariant
            i <= lines.len(),
            ls == views(lines@),
            (pieces_spec(acc@), lo as int) == code_state(ls, i as int),
        decreases lines.len() - i,
    {
        proof {
            lemma_code_state_lo(ls, i as int);
        }
        let trimmed = trim_start_chars(&lines[i]);
        if is_code_boundary_chars(&trimmed) && lo < i {
            flush_chunk(&mut acc, &lines, lo, i, ChunkKind::Function);
            lo = i;
        }
        if window_oversized(&lines, lo, i + 1) || i + 1 - lo >= MAX_CODE_LINES {
            flush_chunk(&mut acc, &lines, lo, i + 1, ChunkKind::CodeBlock);
            lo = i + 1;
        }
        i = i + 1;
    }
    proof {
        lemma_code_state_lo(ls, i as int);
    }
    flush_chunk(&mut acc, &lines, lo, lines.len(), ChunkKind::Function);
    let merged = merge_short_chunks(acc);
    finish(&chars, lines.len(), merged, ChunkKind::CodeBlock)
}

// ─── Markdown ────────────────────────────────────────────────────────────────

/// A frontmatter fence: `---` (opening) or `---` / `...` (closing), trimmed.
pub open spec fn is_fm_close(l: Seq<char>) -> bool {
    trim(l) == "---"@ || trim(l) == "..."@
}

/// The first closing frontmatter line at or after `i`.
pub open spec fn find_close(ls: Seq<Seq<char>>, i: int) -> Option<int>
    decreases ls.len() - i,
{
    if i < 0 || i >= ls.len() {
        None
    } else if is_fm_close(ls[i]) {
        Some(i)
    } else {
        find_close(ls, i + 1)
    }
}

/// YAML frontmatter: the index of the first body line, and the frontmatter
/// chunk (lines `1..=close`).
pub open spec fn frontmatter_spec(ls: Seq<Seq<char>>) -> (int, Seq<SpecChunk>) {
    if ls.len() == 0 || trim(ls[0]) != "---"@ {
        (0, Seq::empty())
    } else {
        match find_close(ls, 1) {
            None => (0, Seq::empty()),
            Some(i) => (i + 1, flushed(ls, 0, i + 1, ChunkKind::Frontmatter)),
        }
    }
}

pub proof fn lemma_find_close(ls: Seq<Seq<char>>, i: int)
    requires
        0 <= i,
    ensures
        find_close(ls, i) matches Some(k) ==> i <= k < ls.len(),
    decreases ls.len() - i,
{
    if i < ls.len() && !is_fm_close(ls[i]) {
        lemma_find_close(ls, i + 1);
    }
}

/// Extract YAML frontmatter: the index of the first body line, and the
/// frontmatter chunk if there is one.
fn extract_frontmatter(lines: &Vec<Vec<char>>, acc: &mut Vec<Piece>) -> (r: usize)
    requires
        old(acc)@.len() == 0,
    ensures
        r == frontmatter_spec(views(lines@)).0,
        pieces_spec(final(acc)@) == frontmatter_spec(views(lines@)).1,
        r <= lines.len(),
{
    let ghost ls = views(lines@);
    assert(pieces_spec(acc@) =~= Seq::<SpecChunk>::empty());
    if lines.len() == 0 {
        return 0;
    }
    let first = trim_chars(&lines[0]);
    if !chars_eq_str(&first, "---") {
        return 0;
    }
    assert(trim(ls[0]) == "---"@);
    let mut i: usize = 1;
    while i < lines.len()
        invariant
            1 <= i <= lines.len(),
            ls == views(lines@),
            find_close(ls, 1) == find_close(ls, i as int),
            ls.len() > 0 && trim(ls[0]) == "---"@,
            pieces_spec(acc@) == Seq::<SpecChunk>::empty(),
        decreases lines.len() - i,
    {
        let t = trim_chars(&lines[i]);
        if chars_eq_str(&t, "---") || chars_eq_str(&t, "...") {
            assert(ls[i as int] == lines@[i as int]@);
            assert(is_fm_close(ls[i as int]));
            assert(find_close(ls, i as int) == Some(i as int));
            flush_chunk(acc, lines, 0, i + 1, ChunkKind::Frontmatter);
            assert(pieces_spec(acc@) =~= frontmatter_spec(ls).1);
            return i + 1;
        }
        i = i + 1;
    }
    0
}

/// The last blank line of `cur` at or above `mid` (below `top`), as a split
/// point just after it.
pub open spec fn back_search(cur: Seq<Seq<char>>, mid: int, top: int) -> Option<int>
    decreases top - mid,
{
    if top <= mid {
        None
    } else if is_blank(cur[top - 1]) {
        Some(top)
    } else {
        back_search(cur, mid, top - 1)
    }
}

/// Split point of an oversized window: just after the last blank line in
/// its second half, else the midpoint.
pub open spec fn para_split(cur: Seq<Seq<char>>) -> int {
    let mid = cur.len() / 2;
    match back_search(cur, mid as int, cur.len() as int) {
        Some(k) => k,
        None => mid as int,
    }
}

pub proof fn lemma_back_search(cur: Seq<Seq<char>>, mid: int, top: int)
    requires
        0 <= mid,
        top <= cur.len(),
    ensures
        back_search(cur, mid, top) matches Some(k) ==> mid < k <= top,
    decreases top - mid,
{
    if top > mid && !is_blank(cur[top - 1]) {
        lemma_back_search(cur, mid, top - 1);
    }
}

/// Find a split point near the midpoint of `lines[lo..hi)`, preferring
/// blank lines (relative to `lo`).
fn find_paragraph_split(lines: &Vec<Vec<char>>, lo: usize, hi: usize) -> (r: usize)
    requires
        lo <= hi <= lines.len(),
    ensures
        r == para_split(views(lines@).subrange(lo as int, hi as int)),
        r <= hi - lo,
{
    let ghost cur = views(lines@).subrange(lo as int, hi as int);
    let len = hi - lo;
    let mid = len / 2;
    let mut top = len;
    proof {
        lemma_back_search(cur, mid as int, len as int);
    }
    while top > mid
        invariant
            mid <= top <= len,
            len == hi - lo,
            lo <= hi <= lines.len(),
            mid == len / 2,
            cur == views(lines@).subrange(lo as int, hi as int),
            back_search(cur, mid as int, len as int) == back_search(cur, mid as int, top as int),
        decreases top - mid,
    {
        if all_whitespace(&lines[lo + top - 1]) {
            assert(cur[top - 1] == views(lines@)[lo + top - 1]);
            return top;
        }
        assert(cur[top - 1] == views(lines@)[lo + top - 1]);
        top = top - 1;
    }
    mid
}

/// The markdown chunker's state between lines.
pub struct MdState {
    pub acc: Seq<SpecChunk>,
    pub lo: int,
    pub kind: ChunkKind,
    pub in_code: bool,
    pub backtick: bool,
}

/// One line of the markdown chunker.
pub open spec fn md_step(ls: Seq<Seq<char>>, i: int, st: MdState) -> MdState {
    if st.in_code {
        let fence = if st.backtick { "```"@ } else { "~~~"@ };
        if starts_with(trim_start(ls[i]), fence) && i + 1 - st.lo > 1 {
            MdState {
                acc: st.acc + flushed(ls, st.lo, i + 1, ChunkKind::CodeBlock),
                lo: i + 1,
                kind: ChunkKind::Paragraph,
                in_code: false,
                backtick: st.backtick,
            }
        } else {
            st
        }
    } else {
        let t = trim_start(ls[i]);
        if starts_with(t, "```"@) || starts_with(t, "~~~"@) {
            MdState {
                acc: if st.lo < i { st.acc + flushed(ls, st.lo, i, st.kind) } else { st.acc },
                lo: i,
                kind: if st.lo < i { ChunkKind::Paragraph } else { st.kind },
                in_code: true,
                backtick: starts_with(t, "```"@),
            }
        } else {
            let heading = starts_with(ls[i], "#"@);
            let acc1 = if heading && st.lo < i { st.acc + flushed(ls, st.lo, i, st.kind) } else { st.acc };
            let lo1 = if heading { i } else { st.lo };
            let kind1 = if heading { ChunkKind::HeadingSection } else { st.kind };
            if chars_size(ls.subrange(lo1, i + 1)) > MAX_CHUNK_CHARS {
                let sp = para_split(ls.subrange(lo1, i + 1));
                MdState {
                    acc: acc1 + flushed(ls, lo1, lo1 + sp, kind1),
                    lo: lo1 + sp,
                    kind: kind1,
                    in_code: false,
                    backtick: st.backtick,
                }
            } else {
                MdState { acc: acc1, lo: lo1, kind: kind1, in_code: false, backtick: st.backtick }
            }
        }
    }
}

/// The markdown chunker's state after the lines `start..i`.
pub open spec fn md_state(ls: Seq<Seq<char>>, start: int, i: int) -> MdState
    decreases i - start,
{
    if i <= start {
        MdState {
            acc: frontmatter_spec(ls).1,
            lo: start,
            kind: ChunkKind::Paragraph,
            in_code: false,
            backtick: false,
        }
    } else {
        md_step(ls, i - 1, md_state(ls, start, i - 1))
    }
}

/// The chunks of a markdown file, before merging.
pub open spec fn md_pieces(ls: Seq<Seq<char>>) -> Seq<SpecChunk> {
    let start = frontmatter_spec(ls).0;
    let st = md_state(ls, start, ls.len() as int);
    st.acc + flushed(ls, st.lo, ls.len() as int, st.kind)
}

/// The chunks of a markdown file.
pub open spec fn spec_chunk_markdown(content: Seq<char>) -> Seq<SpecChunk> {
    with_fallback(content, merge_spec(md_pieces(lines_of(content))), ChunkKind::Paragraph)
}

pub proof fn lemma_md_state_lo(ls: Seq<Seq<char>>, start: int, i: int)
    requires
        0 <= start <= i <= ls.len(),
    ensures
        start <= md_state(ls, start, i).lo <= i,
    decreases i - start,
{
    if i > start {
        lemma_md_state_lo(ls, start, i - 1);
        let st = md_state(ls, start, i - 1);
        if !st.in_code {
            let t = trim_start(ls[i - 1]);
            if !(starts_with(t, "```"@) || starts_with(t, "~~~"@)) {
                let heading = starts_with(ls[i - 1], "#"@);
                let lo1 = if heading { i - 1 } else { st.lo };
                lemma_back_search(ls.subrange(lo1, i), (i - lo1) / 2, i - lo1);
            }
        }
    }
}

/// Split Markdown on headings, preserving code blocks and extracting
/// frontmatter.
pub fn chunk_markdown(content: &str) -> (r: Vec<Chunk>)
    ensures
        chunks_match(r@, spec_chunk_markdown(content@)),
{
    let chars = to_chars(content);
    let lines = split_lines(&chars);
    let ghost ls = views(lines@);
    let mut acc: Vec<Piece> = Vec::new();
    let body_start = extract_frontmatter(&lines, &mut acc);
    let mut lo: usize = body_start;
    let mut kind = ChunkKind::Paragraph;
    let mut in_code = false;
    let mut backtick = false;
    let mut i: usize = body_start;
    while i < lines.len()
        invariant
            body_start <= i <= lines.len(),
            body_start == frontmatter_spec(ls).0,
            ls == views(lines@),
            md_state(ls, body_start as int, i as int) == (MdState {
                acc: pieces_spec(acc@),
                lo: lo as int,
                kind,
                in_code,
                backtick,
            }),
        decreases lines.len() - i,
    {
        proof {
            lemma_md_state_lo(ls, body_start as int, i as int);
        }
        let trimmed = trim_start_chars(&lines[i]);
        if in_code {
            let closes = if backtick {
                starts_with_chars(&trimmed, "```")
            } else {
                starts_with_chars(&trimmed, "~~~")
            };
            if closes && i + 1 - lo > 1 {
                flush_chunk(&mut acc, &lines, lo, i + 1, ChunkKind::CodeBlock);
                in_code = false;
                kind = ChunkKind::Paragraph;
                lo = i + 1;
            }
        } else if starts_with_chars(&trimmed, "```") || starts_with_chars(&trimmed, "~~~") {
            if lo < i {
                flush_chunk(&mut acc, &lines, lo, i, kind);
                kind = ChunkKind::Paragraph;
            }
            in_code = true;
            backtick = starts_with_chars(&trimmed, "```");
            lo = i;
        } else {
            if starts_with_chars(&lines[i], "#") {
                if lo < i {
                    flush_chunk(&mut acc, &lines, lo, i, kind);
                }
                lo = i;
                kind = ChunkKind::HeadingSection;
            }
            if window_oversized(&lines, lo, i + 1) {
                let split = find_paragraph_split(&lines, lo, i + 1);
                flush_chunk(&mut acc, &lines, lo, lo + split, kind);
                lo = lo + split;
            }
        }
        i = i + 1;
    }
    proof {
        lemma_md_state_lo(ls, body_start as int, i as int);
    }
    flush_chunk(&mut acc, &lines, lo, lines.len(), kind);
    let merged = merge_short_chunks(acc);
    finish(&chars, lines.len(), merged, ChunkKind::Paragraph)
}

// ─── Dispatcher ──────────────────────────────────────────────────────────────

/// The lowercased extension of a path (empty when it has none).
pub open spec fn file_ext(path: Seq<char>) -> Seq<char> {
    spec_lowercase(
        match spec_extension(path) {
            Some(e) => e,
            None => Seq::empty(),
        },
    )
}

/// Extensions chunked on code boundaries.
pub open spec fn code_chunk_exts() -> Seq<Seq<char>> {
    seq![
        "rs"@, "py"@, "ts"@, "tsx"@, "js"@, "jsx"@, "go"@, "java"@, "kt"@, "c"@, "cpp"@,
        "h"@, "cs"@, "rb"@, "swift"@, "zig"@, "lua"@,
    ]
}

/// The chunks of a file: markdown, code or plain text by its extension.
pub open spec fn spec_chunk_file(path: Seq<char>, content: Seq<char>) -> Seq<SpecChunk> {
    let ext = file_ext(path);
    if ext == "md"@ || ext == "markdown"@ {
        spec_chunk_markdown(content)
    } else if code_chunk_exts().contains(ext) {
        spec_chunk_code(content)
    } else {
        spec_chunk_text(content)
    }
}

/// The lowercased extension of `path`.
pub fn extension_lower(path: &str) -> (r: Vec<char>)
    ensures
        r@ == file_ext(path@),
{
    let e = match path_extension(path) {
        Some(e) => e,
        None => String::new(),
    };
    let lower = to_lowercase(e.as_str());
    to_chars(lower.as_str())
}

/// Dispatcher: choose the chunking strategy from the file extension.
/// `folder_type` is accepted for callers that distinguish code folders; the
/// line-based strategies serve every folder type.
pub fn chunk_file(path: &str, content: &str, folder_type: Option<&KbType>) -> (r: Vec<Chunk>)
    ensures
        chunks_match(r@, spec_chunk_file(path@, content@)),
{
    let ext = extension_lower(path);
    let code_exts: [&str; 17] = [
        "rs", "py", "ts", "tsx", "js", "jsx", "go", "java", "kt", "c", "cpp", "h", "cs", "rb",
        "swift", "zig", "lua",
    ];
    if chars_eq_str(&ext, "md") || chars_eq_str(&ext, "markdown") {
        chunk_markdown(content)
    } else if is_one_of(&ext, &code_exts) {
        assert(str_views(code_exts@) =~= code_chunk_exts());
        chunk_code(content)
    } else {
        assert(str_views(code_exts@) =~= code_chunk_exts());
        chunk_text(content)
    }
}

} // verus!

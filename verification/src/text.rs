//! Character-level text primitives shared by the chunkers, the fuzzy
//! matcher and the search helpers: whitespace, trimming, UTF-8 byte
//! lengths, line splitting and joining, all stated over `Seq<char>`.
use vstd::prelude::*;

verus! {

// ─── Whitespace ──────────────────────────────────────────────────────────────

/// The Unicode `White_Space` property.
pub open spec fn is_ws(c: char) -> bool {
    let u = c as u32;
    ||| 9 <= u <= 13
    ||| u == 32
    ||| u == 0x85
    ||| u == 0xA0
    ||| u == 0x1680
    ||| 0x2000 <= u <= 0x200A
    ||| u == 0x2028
    ||| u == 0x2029
    ||| u == 0x202F
    ||| u == 0x205F
    ||| u == 0x3000
}

/// Whether `c` has the Unicode `White_Space` property.
pub fn is_whitespace_char(c: char) -> (r: bool)
    ensures
        r == is_ws(c),
{
    let u = c as u32;
    (9 <= u && u <= 13) || u == 32 || u == 0x85 || u == 0xA0 || u == 0x1680 || (0x2000 <= u
        && u <= 0x200A) || u == 0x2028 || u == 0x2029 || u == 0x202F || u == 0x205F || u
        == 0x3000
}

/// Every character of `s` is whitespace (the empty sequence included).
pub open spec fn is_blank(s: Seq<char>) -> bool {
    forall|i: int| 0 <= i < s.len() ==> #[trigger] is_ws(s[i])
}

/// Whether every character of `s` is whitespace.
pub fn all_whitespace(s: &Vec<char>) -> (r: bool)
    ensures
        r == is_blank(s@),
{
    let mut i: usize = 0;
    while i < s.len()
        invariant
            i <= s.len(),
            forall|k: int| 0 <= k < i ==> #[trigger] is_ws(s@[k]),
        decreases s.len() - i,
    {
        if !is_whitespace_char(s[i]) {
            return false;
        }
        i = i + 1;
    }
    true
}

// ─── Trimming ────────────────────────────────────────────────────────────────

/// Number of leading whitespace characters.
pub open spec fn leading_ws(s: Seq<char>) -> nat
    decreases s.len(),
{
    if s.len() > 0 && is_ws(s[0]) {
        1 + leading_ws(s.drop_first())
    } else {
        0
    }
}

/// Number of trailing whitespace characters.
pub open spec fn trailing_ws(s: Seq<char>) -> nat
    decreases s.len(),
{
    if s.len() > 0 && is_ws(s.last()) {
        1 + trailing_ws(s.drop_last())
    } else {
        0
    }
}

/// `s` without its leading whitespace (`str::trim_start`).
pub open spec fn trim_start(s: Seq<char>) -> Seq<char> {
    s.skip(leading_ws(s) as int)
}

/// `s` without its trailing whitespace (`str::trim_end`).
pub open spec fn trim_end(s: Seq<char>) -> Seq<char> {
    s.take(s.len() - trailing_ws(s))
}

/// `s` without leading and trailing whitespace (`str::trim`).
pub open spec fn trim(s: Seq<char>) -> Seq<char> {
    trim_end(trim_start(s))
}

pub proof fn lemma_leading_ws(s: Seq<char>)
    ensures
        leading_ws(s) <= s.len(),
        forall|i: int| 0 <= i < leading_ws(s) ==> #[trigger] is_ws(s[i]),
        leading_ws(s) < s.len() ==> !is_ws(s[leading_ws(s) as int]),
    decreases s.len(),
{
    if s.len() > 0 && is_ws(s[0]) {
        lemma_leading_ws(s.drop_first());
        assert forall|i: int| 0 <= i < leading_ws(s) implies #[trigger] is_ws(s[i]) by {
            if i > 0 {
                assert(s[i] == s.drop_first()[i - 1]);
            }
        }
    }
}

pub proof fn lemma_trailing_ws(s: Seq<char>)
    ensures
        trailing_ws(s) <= s.len(),
        forall|i: int| s.len() - trailing_ws(s) <= i < s.len() ==> #[trigger] is_ws(s[i]),
        trailing_ws(s) < s.len() ==> !is_ws(s[s.len() - trailing_ws(s) - 1]),
    decreases s.len(),
{
    if s.len() > 0 && is_ws(s.last()) {
        lemma_trailing_ws(s.drop_last());
        assert forall|i: int| s.len() - trailing_ws(s) <= i < s.len() implies #[trigger] is_ws(
            s[i],
        ) by {
            if i < s.len() - 1 {
                assert(s[i] == s.drop_last()[i]);
            }
        }
    }
}

/// Index of the first non-whitespace character (`s.len()` when blank).
pub fn leading_ws_count(s: &Vec<char>) -> (r: usize)
    ensures
        r == leading_ws(s@),
{
    proof {
        lemma_leading_ws(s@);
    }
    let mut i: usize = 0;
    while i < s.len() && is_whitespace_char(s[i])
        invariant
            i <= s.len(),
            forall|k: int| 0 <= k < i ==> #[trigger] is_ws(s@[k]),
            leading_ws(s@) <= s.len(),
            forall|k: int| 0 <= k < leading_ws(s@) ==> #[trigger] is_ws(s@[k]),
            leading_ws(s@) < s.len() ==> !is_ws(s@[leading_ws(s@) as int]),
        decreases s.len() - i,
    {
        i = i + 1;
    }
    proof {
        if i < leading_ws(s@) {
            assert(is_ws(s@[i as int]));
        }
        if leading_ws(s@) < i {
            assert(is_ws(s@[leading_ws(s@) as int]));
        }
    }
    i
}

/// Number of trailing whitespace characters.
pub fn trailing_ws_count(s: &Vec<char>) -> (r: usize)
    ensures
        r == trailing_ws(s@),
{
    proof {
        lemma_trailing_ws(s@);
    }
    let mut n: usize = 0;
    while n < s.len() && is_whitespace_char(s[s.len() - 1 - n])
        invariant
            n <= s.len(),
            forall|k: int| s.len() - n <= k < s.len() ==> #[trigger] is_ws(s@[k]),
            trailing_ws(s@) <= s.len(),
            forall|k: int| s.len() - trailing_ws(s@) <= k < s.len() ==> #[trigger] is_ws(s@[k]),
            trailing_ws(s@) < s.len() ==> !is_ws(s@[s.len() - trailing_ws(s@) - 1]),
        decreases s.len() - n,
    {
        n = n + 1;
    }
    proof {
        if n < trailing_ws(s@) {
            assert(is_ws(s@[s.len() - n - 1]));
        }
        if trailing_ws(s@) < n {
            assert(is_ws(s@[s.len() - trailing_ws(s@) - 1]));
        }
    }
    n
}

/// A copy of `s[lo..hi]`.
pub fn sub_chars(s: &Vec<char>, lo: usize, hi: usize) -> (r: Vec<char>)
    requires
        lo <= hi <= s.len(),
    ensures
        r@ == s@.subrange(lo as int, hi as int),
{
    let mut r: Vec<char> = Vec::new();
    let mut i = lo;
    while i < hi
        invariant
            lo <= i <= hi <= s.len(),
            r@ == s@.subrange(lo as int, i as int),
        decreases hi - i,
    {
        r.push(s[i]);
        i = i + 1;
    }
    r
}

/// `s` with surrounding whitespace removed.
pub fn trim_chars(s: &Vec<char>) -> (r: Vec<char>)
    ensures
        r@ == trim(s@),
{
    proof {
        lemma_leading_ws(s@);
    }
    let lead = leading_ws_count(s);
    let t = sub_chars(s, lead, s.len());
    assert(t@ == trim_start(s@));
    proof {
        lemma_trailing_ws(t@);
    }
    let trail = trailing_ws_count(&t);
    sub_chars(&t, 0, t.len() - trail)
}

/// `s` with leading whitespace removed.
pub fn trim_start_chars(s: &Vec<char>) -> (r: Vec<char>)
    ensures
        r@ == trim_start(s@),
{
    proof {
        lemma_leading_ws(s@);
    }
    let lead = leading_ws_count(s);
    sub_chars(s, lead, s.len())
}

// ─── UTF-8 byte lengths ──────────────────────────────────────────────────────

/// Number of bytes `c` takes in UTF-8.
pub open spec fn utf8_len(c: char) -> nat {
    let u = c as u32;
    if u < 0x80 {
        1
    } else if u < 0x800 {
        2
    } else if u < 0x10000 {
        3
    } else {
        4
    }
}

/// Number of bytes `s` takes in UTF-8 (`str::len`).
pub open spec fn byte_len(s: Seq<char>) -> nat
    decreases s.len(),
{
    if s.len() == 0 {
        0
    } else {
        byte_len(s.drop_last()) + utf8_len(s.last())
    }
}

/// Number of bytes `c` takes in UTF-8.
pub fn char_utf8_len(c: char) -> (r: usize)
    ensures
        r == utf8_len(c),
        1 <= r <= 4,
{
    let u = c as u32;
    if u < 0x80 {
        1
    } else if u < 0x800 {
        2
    } else if u < 0x10000 {
        3
    } else {
        4
    }
}

pub proof fn lemma_byte_len_bounds(s: Seq<char>)
    ensures
        s.len() <= byte_len(s) <= 4 * s.len(),
    decreases s.len(),
{
    if s.len() > 0 {
        lemma_byte_len_bounds(s.drop_last());
    }
}

pub proof fn lemma_byte_len_concat(a: Seq<char>, b: Seq<char>)
    ensures
        byte_len(a + b) == byte_len(a) + byte_len(b),
    decreases b.len(),
{
    if b.len() == 0 {
        assert(a + b == a);
    } else {
        lemma_byte_len_concat(a, b.drop_last());
        assert((a + b).drop_last() == a + b.drop_last());
    }
}

/// `min(byte_len(s), cap)`, computed without overflow.
pub fn byte_len_capped(s: &Vec<char>, cap: usize) -> (r: usize)
    ensures
        r == if byte_len(s@) < cap { byte_len(s@) } else { cap as nat },
{
    let mut total: usize = 0;
    let mut i: usize = 0;
    while i < s.len()
        invariant
            i <= s.len(),
            total == if byte_len(s@.take(i as int)) < cap { byte_len(s@.take(i as int)) } else { cap as nat },
        decreases s.len() - i,
    {
        assert(s@.take(i + 1).drop_last() == s@.take(i as int));
        let w = char_utf8_len(s[i]);
        if total >= cap || cap - total <= w {
            total = cap;
        } else {
            total = total + w;
        }
        i = i + 1;
    }
    assert(s@.take(s.len() as int) == s@);
    total
}

// ─── Prefixes and substrings ─────────────────────────────────────────────────

/// `p` is a prefix of `s` (`str::starts_with`).
pub open spec fn starts_with(s: Seq<char>, p: Seq<char>) -> bool {
    p.len() <= s.len() && s.take(p.len() as int) == p
}

/// `p` occurs in `s` as a contiguous run (`str::contains`).
pub open spec fn contains_seq(s: Seq<char>, p: Seq<char>) -> bool {
    exists|k: int| 0 <= k && k + p.len() <= s.len() && #[trigger] s.subrange(k, k + p.len()) == p
}

/// Whether `p` is a prefix of `s`.
pub fn starts_with_chars(s: &Vec<char>, p: &str) -> (r: bool)
    ensures
        r == starts_with(s@, p@),
{
    let pc = to_chars(p);
    starts_with_vec(s, &pc)
}

/// Whether `p` is a prefix of `s`.
pub fn starts_with_vec(s: &Vec<char>, p: &Vec<char>) -> (r: bool)
    ensures
        r == starts_with(s@, p@),
{
    if p.len() > s.len() {
        return false;
    }
    let mut i: usize = 0;
    while i < p.len()
        invariant
            p.len() <= s.len(),
            i <= p.len(),
            forall|k: int| 0 <= k < i ==> s@[k] == p@[k],
        decreases p.len() - i,
    {
        if s[i] != p[i] {
            assert(s@.take(p.len() as int)[i as int] != p@[i as int]);
            return false;
        }
        i = i + 1;
    }
    assert(s@.take(p.len() as int) =~= p@);
    true
}

/// Whether `p` occurs in `s` as a contiguous run.
pub fn contains_vec(s: &Vec<char>, p: &Vec<char>) -> (r: bool)
    ensures
        r == contains_seq(s@, p@),
{
    if p.len() > s.len() {
        return false;
    }
    if p.len() == 0 {
        assert(s@.subrange(0int, 0int + p@.len()) =~= p@);
        return true;
    }
    let mut k: usize = 0;
    let last = s.len() - p.len();
    while k <= last
        invariant
            p.len() <= s.len(),
            last == s.len() - p.len(),
            last < usize::MAX,
            k <= last + 1,
            forall|j: int| 0 <= j < k ==> #[trigger] s@.subrange(j, j + p.len()) != p@,
        decreases last + 1 - k,
    {
        let mut i: usize = 0;
        let mut same = true;
        while i < p.len()
            invariant
                k + p.len() <= s.len(),
                i <= p.len(),
                same ==> forall|m: int| 0 <= m < i ==> s@[k + m] == p@[m],
                !same ==> s@.subrange(k as int, k + p.len()) != p@,
            decreases p.len() - i,
        {
            if s[k + i] != p[i] {
                assert(s@.subrange(k as int, k + p.len())[i as int] != p@[i as int]);
                same = false;
            }
            i = i + 1;
        }
        if same {
            assert(s@.subrange(k as int, k + p.len()) =~= p@);
            return true;
        }
        k = k + 1;
    }
    false
}

// ─── Conversions ─────────────────────────────────────────────────────────────

/// The characters of a string slice, in order.
pub fn to_chars(s: &str) -> (r: Vec<char>)
    ensures
        r@ == s@,
{
    let mut r: Vec<char> = Vec::new();
    for c in it: s.chars()
        invariant
            r@ == it.seq().take(it.index() as int),
            it.seq() == s@,
    {
        r.push(c);
    }
    r
}

/// Appends `c` to `s` (`String::push`).
#[verifier::external_body]
fn string_push(s: &mut String, c: char)
    ensures
        final(s)@ == old(s)@.push(c),
{
    s.push(c);
}

/// A `String` holding exactly the characters of `v`.
pub fn from_chars(v: &Vec<char>) -> (r: String)
    ensures
        r@ == v@,
{
    let mut r = String::new();
    let mut i: usize = 0;
    while i < v.len()
        invariant
            i <= v.len(),
            r@ == v@.take(i as int),
        decreases v.len() - i,
    {
        string_push(&mut r, v[i]);
        assert(v@.take(i + 1) == v@.take(i as int).push(v@[i as int]));
        i = i + 1;
    }
    assert(v@.take(v.len() as int) == v@);
    r
}

/// A `String` holding exactly the characters of `s`.
pub fn string_of(s: &str) -> (r: String)
    ensures
        r@ == s@,
{
    let v = to_chars(s);
    from_chars(&v)
}

/// Appends the characters of `p` to `v`.
pub fn push_str(v: &mut Vec<char>, p: &str)
    ensures
        final(v)@ == old(v)@ + p@,
{
    let pc = to_chars(p);
    append_chars(v, &pc);
}

/// Appends the characters of `p` to `v`.
pub fn append_chars(v: &mut Vec<char>, p: &Vec<char>)
    ensures
        final(v)@ == old(v)@ + p@,
{
    let mut i: usize = 0;
    while i < p.len()
        invariant
            i <= p.len(),
            v@ == old(v)@ + p@.take(i as int),
        decreases p.len() - i,
    {
        v.push(p[i]);
        assert(p@.take(i + 1) == p@.take(i as int).push(p@[i as int]));
        i = i + 1;
    }
    assert(p@.take(p.len() as int) == p@);
}

/// Whether two character vectors are equal.
pub fn chars_eq(a: &Vec<char>, b: &Vec<char>) -> (r: bool)
    ensures
        r == (a@ == b@),
{
    if a.len() != b.len() {
        return false;
    }
    let mut i: usize = 0;
    while i < a.len()
        invariant
            a.len() == b.len(),
            i <= a.len(),
            forall|k: int| 0 <= k < i ==> a@[k] == b@[k],
        decreases a.len() - i,
    {
        if a[i] != b[i] {
            return false;
        }
        i = i + 1;
    }
    assert(a@ =~= b@);
    true
}

/// Whether the characters of `a` equal those of the literal `b`.
pub fn chars_eq_str(a: &Vec<char>, b: &str) -> (r: bool)
    ensures
        r == (a@ == b@),
{
    let bc = to_chars(b);
    chars_eq(a, &bc)
}

// ─── Lines ───────────────────────────────────────────────────────────────────

/// Splits `s` at every `'\n'`: the finished pieces, and the piece after the
/// last `'\n'`.
pub open spec fn split_nl(s: Seq<char>) -> (Seq<Seq<char>>, Seq<char>)
    decreases s.len(),
{
    if s.len() == 0 {
        (Seq::empty(), Seq::empty())
    } else {
        let (done, cur) = split_nl(s.drop_last());
        if s.last() == '\n' {
            (done.push(cur), Seq::empty())
        } else {
            (done, cur.push(s.last()))
        }
    }
}

/// A finished line loses one trailing `'\r'` (the `"\r\n"` line ending).
pub open spec fn strip_cr(l: Seq<char>) -> Seq<char> {
    if l.len() > 0 && l.last() == '\r' {
        l.drop_last()
    } else {
        l
    }
}

/// The lines of `s`, as `str::lines` yields them: split at `'\n'`, each
/// finished line without a trailing `'\r'`, and no empty line after a final
/// `'\n'`.
pub open spec fn lines_of(s: Seq<char>) -> Seq<Seq<char>> {
    let (done, cur) = split_nl(s);
    let finished = Seq::new(done.len(), |i: int| strip_cr(done[i]));
    if cur.len() == 0 {
        finished
    } else {
        finished.push(cur)
    }
}

/// The views of a vector of character vectors.
pub open spec fn views(v: Seq<Vec<char>>) -> Seq<Seq<char>> {
    Seq::new(v.len(), |i: int| v[i]@)
}

pub fn strip_cr_vec(l: Vec<char>) -> (r: Vec<char>)
    ensures
        r@ == strip_cr(l@),
{
    let mut l = l;
    if l.len() > 0 && l[l.len() - 1] == '\r' {
        l.pop();
    }
    l
}

/// The lines of `s` (`str::lines`).
pub fn split_lines(s: &Vec<char>) -> (r: Vec<Vec<char>>)
    ensures
        views(r@) == lines_of(s@),
{
    let mut done: Vec<Vec<char>> = Vec::new();
    let mut cur: Vec<char> = Vec::new();
    let mut i: usize = 0;
    while i < s.len()
        invariant
            i <= s.len(),
            views(done@) == Seq::new(split_nl(s@.take(i as int)).0.len(), |k: int| strip_cr(split_nl(s@.take(i as int)).0[k])),
            cur@ == split_nl(s@.take(i as int)).1,
        decreases s.len() - i,
    {
        assert(s@.take(i + 1).drop_last() == s@.take(i as int));
        let c = s[i];
        let ghost prev = split_nl(s@.take(i as int));
        if c == '\n' {
            assert(split_nl(s@.take(i + 1)) == (prev.0.push(prev.1), Seq::<char>::empty()));
            let finished = strip_cr_vec(cur);
            let ghost old_done = done@;
            done.push(finished);
            assert(views(done@) =~= views(old_done).push(strip_cr(prev.1)));
            cur = Vec::new();
            assert(views(done@) =~= Seq::new(split_nl(s@.take(i + 1)).0.len(), |k: int| strip_cr(split_nl(s@.take(i + 1)).0[k])));
        } else {
            assert(split_nl(s@.take(i + 1)) == (prev.0, prev.1.push(c)));
            cur.push(c);
        }
        i = i + 1;
    }
    assert(s@.take(s.len() as int) == s@);
    if cur.len() > 0 {
        done.push(cur);
        assert(views(done@) =~= lines_of(s@));
    }
    done
}

/// The lines joined with `'\n'` (`[&str]::join("\n")`).
pub open spec fn join_lines(ls: Seq<Seq<char>>) -> Seq<char>
    decreases ls.len(),
{
    if ls.len() == 0 {
        Seq::empty()
    } else if ls.len() == 1 {
        ls[0]
    } else {
        join_lines(ls.drop_last()) + seq!['\n'] + ls.last()
    }
}

/// The lines `ls[lo..hi]` joined with `'\n'`.
pub fn join_range(ls: &Vec<Vec<char>>, lo: usize, hi: usize) -> (r: Vec<char>)
    requires
        lo <= hi <= ls.len(),
    ensures
        r@ == join_lines(views(ls@).subrange(lo as int, hi as int)),
{
    let mut r: Vec<char> = Vec::new();
    let mut i = lo;
    while i < hi
        invariant
            lo <= i <= hi <= ls.len(),
            r@ == join_lines(views(ls@).subrange(lo as int, i as int)),
        decreases hi - i,
    {
        let ghost before = views(ls@).subrange(lo as int, i as int);
        let ghost after = views(ls@).subrange(lo as int, i + 1);
        assert(after.drop_last() == before);
        if i > lo {
            r.push('\n');
        }
        append_chars(&mut r, &ls[i]);
        proof {
            if i == lo {
                assert(r@ =~= join_lines(after));
            } else {
                assert(r@ =~= join_lines(after));
            }
        }
        i = i + 1;
    }
    r
}

/// The pieces joined with `sep` between each two (`[S]::join(sep)`).
pub open spec fn join_with(ls: Seq<Seq<char>>, sep: Seq<char>) -> Seq<char>
    decreases ls.len(),
{
    if ls.len() == 0 {
        Seq::empty()
    } else if ls.len() == 1 {
        ls[0]
    } else {
        join_with(ls.drop_last(), sep) + sep + ls.last()
    }
}

/// The views of a sequence of strings.
pub open spec fn string_views(v: Seq<String>) -> Seq<Seq<char>> {
    Seq::new(v.len(), |i: int| v[i]@)
}

/// `parts.join(sep)`.
pub fn join_strings(parts: &Vec<String>, sep: &str) -> (r: String)
    ensures
        r@ == join_with(string_views(parts@), sep@),
{
    let ghost all = string_views(parts@);
    let sc = to_chars(sep);
    let mut out: Vec<char> = Vec::new();
    let mut i: usize = 0;
    while i < parts.len()
        invariant
            i <= parts.len(),
            all == string_views(parts@),
            sc@ == sep@,
            out@ == join_with(all.subrange(0, i as int), sep@),
        decreases parts.len() - i,
    {
        let ghost before = all.subrange(0, i as int);
        let ghost after = all.subrange(0, i + 1);
        assert(after.drop_last() == before);
        if i > 0 {
            append_chars(&mut out, &sc);
        }
        let pc = to_chars(parts[i].as_str());
        append_chars(&mut out, &pc);
        assert(out@ =~= join_with(after, sep@));
        i = i + 1;
    }
    assert(all.subrange(0, parts.len() as int) == all);
    from_chars(&out)
}

/// Splits `s` at whitespace: the finished words, and the word in progress.
pub open spec fn split_ws(s: Seq<char>) -> (Seq<Seq<char>>, Seq<char>)
    decreases s.len(),
{
    if s.len() == 0 {
        (Seq::empty(), Seq::empty())
    } else {
        let (done, cur) = split_ws(s.drop_last());
        if is_ws(s.last()) {
            if cur.len() > 0 {
                (done.push(cur), Seq::empty())
            } else {
                (done, Seq::empty())
            }
        } else {
            (done, cur.push(s.last()))
        }
    }
}

/// The maximal runs of non-whitespace characters of `s`, in order
/// (`str::split_whitespace`).
pub open spec fn ws_words(s: Seq<char>) -> Seq<Seq<char>> {
    let (done, cur) = split_ws(s);
    if cur.len() > 0 {
        done.push(cur)
    } else {
        done
    }
}

/// The whitespace-separated words of `s` (`str::split_whitespace`).
pub fn split_whitespace_chars(s: &Vec<char>) -> (r: Vec<Vec<char>>)
    ensures
        views(r@) == ws_words(s@),
{
    let mut done: Vec<Vec<char>> = Vec::new();
    let mut cur: Vec<char> = Vec::new();
    let mut i: usize = 0;
    while i < s.len()
        invariant
            i <= s.len(),
            views(done@) == split_ws(s@.take(i as int)).0,
            cur@ == split_ws(s@.take(i as int)).1,
        decreases s.len() - i,
    {
        assert(s@.take(i + 1).drop_last() == s@.take(i as int));
        let c = s[i];
        let ghost old_done = done@;
        if is_whitespace_char(c) {
            if cur.len() > 0 {
                done.push(cur);
                assert(views(done@) =~= views(old_done).push(split_ws(s@.take(i as int)).1));
            }
            cur = Vec::new();
        } else {
            cur.push(c);
        }
        i = i + 1;
    }
    assert(s@.take(s.len() as int) == s@);
    if cur.len() > 0 {
        let ghost old_done = done@;
        done.push(cur);
        assert(views(done@) =~= views(old_done).push(split_ws(s@).1));
    }
    done
}

/// The finished pieces, each followed by its `'\n'`.
pub open spec fn unsplit(done: Seq<Seq<char>>) -> Seq<char>
    decreases done.len(),
{
    if done.len() == 0 {
        Seq::empty()
    } else {
        unsplit(done.drop_last()) + done.last() + seq!['\n']
    }
}

/// Splitting at newlines loses nothing: `s` is the finished pieces, each
/// with its newline, then the trailing piece.
pub proof fn lemma_split_nl(s: Seq<char>)
    ensures
        s == unsplit(split_nl(s).0) + split_nl(s).1,
    decreases s.len(),
{
    if s.len() > 0 {
        lemma_split_nl(s.drop_last());
        let (done, cur) = split_nl(s.drop_last());
        if s.last() == '\n' {
            let d2 = done.push(cur);
            assert(split_nl(s).0 == d2);
            assert(d2.drop_last() =~= done);
            assert(d2.last() == cur);
            assert(unsplit(d2) == unsplit(done) + cur + seq!['\n']);
            assert(s =~= s.drop_last().push('\n'));
            assert(s =~= unsplit(split_nl(s).0) + split_nl(s).1);
        } else {
            assert(split_nl(s).0 == done);
            assert(split_nl(s).1 == cur.push(s.last()));
            assert(s =~= s.drop_last().push(s.last()));
            assert(s =~= unsplit(split_nl(s).0) + split_nl(s).1);
        }
    }
}

/// Where the piece `done[j]` sits inside `unsplit(done)`.
pub proof fn lemma_unsplit_segment(done: Seq<Seq<char>>, j: int)
    requires
        0 <= j < done.len(),
    ensures
        ({
            let off = unsplit(done.take(j)).len() as int;
            &&& off + done[j].len() + 1 <= unsplit(done).len()
            &&& unsplit(done).subrange(off, off + done[j].len()) == done[j]
            &&& unsplit(done)[off + done[j].len()] == '\n'
        }),
    decreases done.len(),
{
    let off = unsplit(done.take(j)).len() as int;
    if j == done.len() - 1 {
        assert(done.take(j) == done.drop_last());
        assert(unsplit(done).subrange(off, off + done[j].len()) =~= done[j]);
    } else {
        lemma_unsplit_segment(done.drop_last(), j);
        assert(done.drop_last().take(j) == done.take(j));
        assert(done.drop_last()[j] == done[j]);
        let u = unsplit(done.drop_last());
        assert(unsplit(done).subrange(off, off + done[j].len()) =~= u.subrange(off, off + done[j].len()));
        assert(unsplit(done)[off + done[j].len()] == u[off + done[j].len()]);
    }
}

/// Every position of `unsplit(done)` lies in some piece or on its newline.
pub proof fn lemma_unsplit_locate(done: Seq<Seq<char>>, p: int)
    requires
        0 <= p < unsplit(done).len(),
    ensures
        exists|j: int|
            0 <= j < done.len() && unsplit(done.take(j)).len() <= p <= unsplit(done.take(j)).len()
                + #[trigger] done[j].len(),
    decreases done.len(),
{
    let u = unsplit(done.drop_last());
    let j = done.len() - 1;
    assert(done.take(j) == done.drop_last());
    if p < u.len() {
        lemma_unsplit_locate(done.drop_last(), p);
        let k = choose|k: int|
            0 <= k < done.drop_last().len() && unsplit(done.drop_last().take(k)).len() <= p
                <= unsplit(done.drop_last().take(k)).len() + #[trigger] done.drop_last()[k].len();
        assert(done.drop_last().take(k) == done.take(k));
        assert(done.drop_last()[k] == done[k]);
    } else {
        assert(unsplit(done.take(j)).len() <= p <= unsplit(done.take(j)).len() + done[j].len());
    }
}

/// Every line of `s` occurs in `s`.
pub proof fn lemma_line_in_content(s: Seq<char>, i: int)
    requires
        0 <= i < lines_of(s).len(),
    ensures
        contains_seq(s, lines_of(s)[i]),
{
    lemma_split_nl(s);
    let (done, cur) = split_nl(s);
    let u = unsplit(done);
    let l = lines_of(s)[i];
    if i < done.len() {
        lemma_unsplit_segment(done, i);
        let off = unsplit(done.take(i)).len() as int;
        assert(l == strip_cr(done[i]));
        assert(s.subrange(off, off + done[i].len()) =~= done[i]);
        assert(s.subrange(off, off + l.len()) =~= l);
    } else {
        assert(l == cur);
        assert(s.subrange(u.len() as int, u.len() as int + l.len()) =~= l);
    }
}

/// A text holding a non-whitespace character has a non-blank line.
pub proof fn lemma_nonblank_has_line(s: Seq<char>)
    requires
        !is_blank(s),
    ensures
        exists|i: int| 0 <= i < lines_of(s).len() && !is_blank(#[trigger] lines_of(s)[i]),
{
    lemma_split_nl(s);
    let (done, cur) = split_nl(s);
    let u = unsplit(done);
    let ls = lines_of(s);
    let p = choose|p: int| 0 <= p < s.len() && !is_ws(s[p]);
    if p >= u.len() {
        assert(cur[p - u.len()] == s[p]);
        assert(cur.len() > 0);
        assert(ls[done.len() as int] == cur);
        assert(!is_blank(ls[done.len() as int]));
    } else {
        assert(s[p] == u[p]);
        lemma_unsplit_locate(done, p);
        let j = choose|j: int|
            0 <= j < done.len() && unsplit(done.take(j)).len() <= p <= unsplit(done.take(j)).len()
                + #[trigger] done[j].len();
        lemma_unsplit_segment(done, j);
        let off = unsplit(done.take(j)).len() as int;
        if p == off + done[j].len() {
            assert(u[p] == '\n');
        } else {
            assert(done[j][p - off] == u.subrange(off, off + done[j].len())[p - off]);
            let l = strip_cr(done[j]);
            assert(ls[j] == l);
            if p - off < l.len() {
                assert(l[p - off] == done[j][p - off]);
                assert(!is_blank(ls[j]));
            } else {
                assert(done[j][p - off] == '\r');
            }
        }
    }
}

/// A non-blank line makes its text non-blank.
pub proof fn lemma_contains_nonblank(s: Seq<char>, p: Seq<char>)
    requires
        contains_seq(s, p),
        !is_blank(p),
    ensures
        !is_blank(s),
{
    let k = choose|k: int| 0 <= k && k + p.len() <= s.len() && #[trigger] s.subrange(k, k + p.len()) == p;
    let q = choose|q: int| 0 <= q < p.len() && !is_ws(p[q]);
    assert(s[k + q] == s.subrange(k, k + p.len())[q]);
}

/// `contains_seq` is transitive.
pub proof fn lemma_contains_trans(a: Seq<char>, b: Seq<char>, c: Seq<char>)
    requires
        contains_seq(a, b),
        contains_seq(b, c),
    ensures
        contains_seq(a, c),
{
    let k = choose|k: int| 0 <= k && k + b.len() <= a.len() && #[trigger] a.subrange(k, k + b.len()) == b;
    let m = choose|m: int| 0 <= m && m + c.len() <= b.len() && #[trigger] b.subrange(m, m + c.len()) == c;
    assert(a.subrange(k + m, k + m + c.len()) =~= c);
}

/// Both parts of a concatenation occur in it.
pub proof fn lemma_contains_concat(a: Seq<char>, b: Seq<char>)
    ensures
        contains_seq(a + b, a),
        contains_seq(a + b, b),
{
    assert((a + b).subrange(0int, 0int + a.len()) =~= a);
    assert((a + b).subrange(a.len() as int, a.len() as int + b.len()) =~= b);
}

/// Every sequence occurs in itself.
pub proof fn lemma_contains_refl(a: Seq<char>)
    ensures
        contains_seq(a, a),
{
    assert(a.subrange(0int, 0int + a.len()) =~= a);
}

/// Each joined line occurs in the join.
pub proof fn lemma_join_contains(ls: Seq<Seq<char>>, j: int)
    requires
        0 <= j < ls.len(),
    ensures
        contains_seq(join_lines(ls), ls[j]),
    decreases ls.len(),
{
    if ls.len() == 1 {
        lemma_contains_refl(ls[0]);
    } else {
        let front = join_lines(ls.drop_last());
        let tail = seq!['\n'] + ls.last();
        assert(join_lines(ls) == front + seq!['\n'] + ls.last());
        assert(join_lines(ls) =~= front + tail);
        if j == ls.len() - 1 {
            lemma_contains_concat(front + seq!['\n'], ls.last());
        } else {
            lemma_join_contains(ls.drop_last(), j);
            assert(ls.drop_last()[j] == ls[j]);
            lemma_contains_concat(front, tail);
            lemma_contains_trans(join_lines(ls), front, ls[j]);
        }
    }
}

// ─── Case ────────────────────────────────────────────────────────────────────

/// What `str::to_lowercase` gives for `s` (Unicode lowercase mapping).
pub uninterp spec fn spec_lowercase(s: Seq<char>) -> Seq<char>;

/// `s.to_lowercase()`: the Unicode lowercase form of `s`.
#[verifier::external_body]
pub(crate) fn to_lowercase(s: &str) -> (r: String)
    ensures
        r@ == spec_lowercase(s@),
{
    s.to_lowercase()
}

/// ASCII lowercase of one character.
pub open spec fn ascii_lower(c: char) -> char {
    if 'A' <= c <= 'Z' {
        ((c as u32) + 32) as char
    } else {
        c
    }
}

/// ASCII lowercase of a sequence.
pub open spec fn ascii_lower_seq(s: Seq<char>) -> Seq<char> {
    Seq::new(s.len(), |i: int| ascii_lower(s[i]))
}

/// `c.to_ascii_lowercase()`.
pub fn ascii_lower_char(c: char) -> (r: char)
    ensures
        r == ascii_lower(c),
{
    if 'A' <= c && c <= 'Z' {
        let u = (c as u32) + 32;
        assert(0x61 <= u <= 0x7A);
        char_from_ascii(u as u8)
    } else {
        c
    }
}

/// The character of an ASCII code.
fn char_from_ascii(b: u8) -> (r: char)
    requires
        b < 128,
    ensures
        r == b as char,
{
    b as char
}

/// ASCII lowercase of a character vector.
pub fn ascii_lower_vec(s: &Vec<char>) -> (r: Vec<char>)
    ensures
        r@ == ascii_lower_seq(s@),
{
    let mut r: Vec<char> = Vec::new();
    let mut i: usize = 0;
    while i < s.len()
        invariant
            i <= s.len(),
            r@ == ascii_lower_seq(s@).take(i as int),
        decreases s.len() - i,
    {
        r.push(ascii_lower_char(s[i]));
        assert(ascii_lower_seq(s@).take(i + 1) =~= ascii_lower_seq(s@).take(i as int).push(ascii_lower(s@[i as int])));
        i = i + 1;
    }
    assert(ascii_lower_seq(s@).take(s.len() as int) =~= ascii_lower_seq(s@));
    r
}

/// The views of a slice of string slices.
pub open spec fn str_views(v: Seq<&str>) -> Seq<Seq<char>> {
    Seq::new(v.len(), |i: int| v[i]@)
}

/// Whether `s` equals one of `list`.
pub fn is_one_of(s: &Vec<char>, list: &[&str]) -> (r: bool)
    ensures
        r == str_views(list@).contains(s@),
{
    let ghost ls = str_views(list@);
    let mut j: usize = 0;
    while j < list.len()
        invariant
            j <= list.len(),
            ls == str_views(list@),
            forall|k: int| 0 <= k < j ==> #[trigger] ls[k] != s@,
        decreases list.len() - j,
    {
        if chars_eq_str(s, list[j]) {
            assert(ls[j as int] == s@);
            return true;
        }
        j = j + 1;
    }
    false
}

// ─── Ordering ────────────────────────────────────────────────────────────────

/// `a` comes strictly before `b` in lexicographic (code point) order, the
/// order `String`'s `Ord` gives.
pub open spec fn lex_lt(a: Seq<char>, b: Seq<char>) -> bool
    decreases a.len(),
{
    if a.len() == 0 {
        b.len() > 0
    } else if b.len() == 0 {
        false
    } else if a[0] != b[0] {
        a[0] < b[0]
    } else {
        lex_lt(a.drop_first(), b.drop_first())
    }
}

pub proof fn lemma_lex_irreflexive(a: Seq<char>)
    ensures
        !lex_lt(a, a),
    decreases a.len(),
{
    if a.len() > 0 {
        lemma_lex_irreflexive(a.drop_first());
    }
}

pub proof fn lemma_lex_total(a: Seq<char>, b: Seq<char>)
    ensures
        a == b || lex_lt(a, b) || lex_lt(b, a),
        !(lex_lt(a, b) && lex_lt(b, a)),
    decreases a.len(),
{
    if a.len() > 0 && b.len() > 0 {
        if a[0] == b[0] {
            lemma_lex_total(a.drop_first(), b.drop_first());
            if a.drop_first() == b.drop_first() {
                assert(a =~= seq![a[0]] + a.drop_first());
                assert(b =~= seq![b[0]] + b.drop_first());
            }
        }
    } else if a.len() == 0 && b.len() == 0 {
        assert(a =~= b);
    }
}

pub proof fn lemma_lex_transitive(a: Seq<char>, b: Seq<char>, c: Seq<char>)
    requires
        lex_lt(a, b),
        lex_lt(b, c),
    ensures
        lex_lt(a, c),
    decreases a.len(),
{
    if a.len() > 0 && b.len() > 0 && c.len() > 0 {
        if a[0] == b[0] && b[0] == c[0] {
            lemma_lex_transitive(a.drop_first(), b.drop_first(), c.drop_first());
        }
    }
}

/// Whether `a` comes strictly before `b` (`String`'s `<`).
pub fn chars_lt(a: &Vec<char>, b: &Vec<char>) -> (r: bool)
    ensures
        r == lex_lt(a@, b@),
{
    let mut i: usize = 0;
    assert(a@.skip(0) == a@);
    assert(b@.skip(0) == b@);
    while i < a.len() && i < b.len() && a[i] == b[i]
        invariant
            i <= a.len(),
            i <= b.len(),
            lex_lt(a@, b@) == lex_lt(a@.skip(i as int), b@.skip(i as int)),
        decreases a.len() - i,
    {
        assert(a@.skip(i as int).drop_first() == a@.skip(i + 1));
        assert(b@.skip(i as int).drop_first() == b@.skip(i + 1));
        i = i + 1;
    }
    if i == a.len() {
        i < b.len()
    } else if i == b.len() {
        false
    } else {
        assert(a@.skip(i as int)[0] == a@[i as int]);
        assert(b@.skip(i as int)[0] == b@[i as int]);
        a[i] < b[i]
    }
}

} // verus!

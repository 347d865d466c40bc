//! The index database's logic that does not touch SQLite: chunk rows, the
//! vector-table decisions, and the window of chunks around a hit.
use vstd::prelude::*;

use crate::init::{decimal, decimal_string, parse_usize, spec_parse_usize};
use crate::text::{from_chars, push_str, sub_chars, to_chars, contains_seq};

verus! {

/// A chunk as stored in the index.
#[derive(Debug, Clone)]
pub struct ChunkRow {
    pub chunk_id: i64,
    pub doc_id: i64,
    pub content: String,
    pub line_start: usize,
    pub line_end: usize,
    pub chunk_type: String,
}

/// The database file of a knowledge base: `<kb_name>.db`.
pub fn db_file_name(kb_name: &str) -> (r: String)
    ensures
        r@ == kb_name@ + ".db"@,
{
    let mut v: Vec<char> = Vec::new();
    push_str(&mut v, kb_name);
    push_str(&mut v, ".db");
    from_chars(&v)
}

// ─── Vector tables ───────────────────────────────────────────────────────────

/// The first position at or after `from` where `p` occurs in `s`, or -1.
pub open spec fn find_from(s: Seq<char>, p: Seq<char>, from: int) -> int
    decreases s.len() + 1 - from,
{
    if from < 0 || from + p.len() > s.len() {
        -1
    } else if s.subrange(from, from + p.len()) == p {
        from
    } else {
        find_from(s, p, from + 1)
    }
}

fn find_chars(s: &Vec<char>, p: &Vec<char>, from: usize) -> (r: Option<usize>)
    requires
        from <= s.len(),
    ensures
        match r {
            Some(i) => i as int == find_from(s@, p@, from as int) && i + p.len() <= s.len() && i >= from,
            None => find_from(s@, p@, from as int) == -1,
        },
{
    let mut k = from;
    while s.len() - k >= p.len()
        invariant
            from <= k <= s.len(),
            find_from(s@, p@, from as int) == find_from(s@, p@, k as int),
        decreases s.len() + 1 - k,
    {
        let mut same = true;
        let mut j: usize = 0;
        while j < p.len()
            invariant
                k + p.len() <= s.len(),
                j <= p.len(),
                same == (forall|m: int| 0 <= m < j ==> s@[k + m] == p@[m]),
            decreases p.len() - j,
        {
            if s[k + j] != p[j] {
                same = false;
            }
            j = j + 1;
        }
        if same {
            assert(s@.subrange(k as int, k + p.len()) =~= p@);
            return Some(k);
        }
        assert(s@.subrange(k as int, k + p.len()) != p@) by {
            let m = choose|m: int| 0 <= m < p.len() && s@[k + m] != p@[m];
            assert(s@.subrange(k as int, k + p.len())[m] != p@[m]);
        }
        k = k + 1;
    }
    None
}

/// The dimensions a `vec0` table was created with: the number between
/// `float[` and the next `]` of its CREATE statement.
pub open spec fn spec_vec_dimensions(sql: Seq<char>) -> Option<usize> {
    let start = find_from(sql, "float["@, 0);
    if start < 0 {
        None
    } else {
        let from = start + 6;
        let end = find_from(sql, "]"@, from);
        if end < 0 {
            None
        } else {
            spec_parse_usize(sql.subrange(from, end))
        }
    }
}

/// Reads the embedding dimensions from a `vec0` table's CREATE statement
/// (the number in `float[N]`); `None` when there is none to read.
pub fn parse_vec_dimensions(sql: &str) -> (r: Option<usize>)
    ensures
        r == spec_vec_dimensions(sql@),
{
    let sc = to_chars(sql);
    let open = to_chars("float[");
    let close = to_chars("]");
    proof {
        reveal_strlit("float[");
    }
    match find_chars(&sc, &open, 0) {
        None => None,
        Some(start) => {
            let from = start + 6;
            match find_chars(&sc, &close, from) {
                None => None,
                Some(end) => {
                    proof {
                        reveal_strlit("]");
                    }
                    let num = sub_chars(&sc, from, end);
                    let ns = from_chars(&num);
                    parse_usize(ns.as_str())
                },
            }
        },
    }
}

/// What happens to a vector table when the configured dimensions are
/// applied to it.
#[derive(Debug, Clone, Copy, PartialEq, Eq)]
pub enum VecTableAction {
    /// It exists with the right dimensions.
    Keep,
    /// It exists with other dimensions: drop it and create it anew.
    Recreate,
    /// It does not exist: create it.
    Create,
}

/// The action for a vector table whose current dimensions are `existing`
/// (`None` when it does not exist).
pub fn vec_table_action(existing: Option<usize>, dimensions: usize) -> (r: VecTableAction)
    ensures
        r == match existing {
            Some(d) => if d == dimensions {
                VecTableAction::Keep
            } else {
                VecTableAction::Recreate
            },
            None => VecTableAction::Create,
        },
{
    match existing {
        Some(d) => if d == dimensions {
            VecTableAction::Keep
        } else {
            VecTableAction::Recreate
        },
        None => VecTableAction::Create,
    }
}

/// The statement creating a `vec0` table keyed by `key_column`.
pub fn vec_table_sql(table: &str, key_column: &str, dimensions: usize) -> (r: String)
    ensures
        r@ == "CREATE VIRTUAL TABLE "@ + table@ + " USING vec0("@ + key_column@
            + " INTEGER PRIMARY KEY, embedding float["@ + decimal(dimensions as nat) + "])"@,
{
    let mut v: Vec<char> = Vec::new();
    push_str(&mut v, "CREATE VIRTUAL TABLE ");
    push_str(&mut v, table);
    push_str(&mut v, " USING vec0(");
    push_str(&mut v, key_column);
    push_str(&mut v, " INTEGER PRIMARY KEY, embedding float[");
    let d = decimal_string(dimensions);
    push_str(&mut v, d.as_str());
    push_str(&mut v, "])");
    from_chars(&v)
}

// ─── Neighbouring chunks ─────────────────────────────────────────────────────

/// The first position of `id` among the chunk ids, or -1.
pub open spec fn id_position(ids: Seq<i64>, id: i64) -> int
    decreases ids.len(),
{
    if ids.len() == 0 {
        -1
    } else {
        let r = id_position(ids.drop_last(), id);
        if r >= 0 {
            r
        } else if ids.last() == id {
            ids.len() - 1
        } else {
            -1
        }
    }
}

/// The window of chunks around a chunk of a document: with the document's
/// chunk ids in line order, the chunk's position `pos`, the start of the
/// (at most `before`) chunks before it, and the end of the (at most
/// `after`) chunks after it.  `None` when the chunk is not among them.
pub fn neighbor_window(ids: &Vec<i64>, chunk_id: i64, before: usize, after: usize) -> (r: Option<(usize, usize, usize)>)
    ensures
        match r {
            None => id_position(ids@, chunk_id) == -1,
            Some((lo, pos, hi)) => {
                &&& pos as int == id_position(ids@, chunk_id)
                &&& lo == if pos >= before { (pos - before) as usize } else { 0 }
                &&& hi == if ids@.len() - (pos + 1) >= after { (pos + 1 + after) as usize } else { ids@.len() as usize }
                &&& lo <= pos < hi <= ids@.len()
            },
        },
{
    let mut k: usize = 0;
    while k < ids.len()
        invariant
            k <= ids.len(),
            id_position(ids@.take(k as int), chunk_id) == -1,
        decreases ids.len() - k,
    {
        assert(ids@.take(k as int + 1).drop_last() == ids@.take(k as int));
        if ids[k] == chunk_id {
            proof {
                lemma_id_position_prefix(ids@, chunk_id, (k + 1) as nat);
            }
            let lo = if k >= before { k - before } else { 0 };
            let hi = if ids.len() - (k + 1) >= after { k + 1 + after } else { ids.len() };
            return Some((lo, k, hi));
        }
        k = k + 1;
    }
    assert(ids@.take(ids.len() as int) == ids@);
    None
}

proof fn lemma_id_position_prefix(ids: Seq<i64>, id: i64, k: nat)
    requires
        1 <= k <= ids.len(),
        id_position(ids.take(k as int), id) >= 0,
    ensures
        id_position(ids, id) == id_position(ids.take(k as int), id),
    decreases ids.len() - k,
{
    if k < ids.len() {
        let k1: nat = k + 1;
        assert(ids.take(k1 as int).drop_last() == ids.take(k as int));
        assert(id_position(ids.take(k1 as int), id) == id_position(ids.take(k as int), id));
        lemma_id_position_prefix(ids, id, k1);
    } else {
        assert(ids.take(k as int) == ids);
    }
}

} // verus!

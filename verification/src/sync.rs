//! Sync logic: content hashes, which files a sync updates and removes,
//! which files and directories are indexed at all, and the other decisions
//! a sync makes between its reads and writes.
use vstd::prelude::*;

use sha2::Digest;

use crate::paths::{path_extension, spec_extension};
use crate::init::{path_strip_prefix, spec_strip_prefix, strip_trailing_slash};
use crate::text::{
    chars_eq, chars_eq_str, from_chars, is_blank, is_one_of, lines_of, split_lines, str_views,
    string_of, string_views, to_chars, to_lowercase, spec_lowercase, trim, trim_chars, trim_start,
    trim_start_chars, views,
};

verus! {

// ─── Hashes ──────────────────────────────────────────────────────────────────

/// What SHA-256 gives for `data`.
pub uninterp spec fn spec_sha256(data: Seq<u8>) -> Seq<u8>;

/// `Sha256::digest(data)`: the SHA-256 digest of `data`, 32 bytes.
#[verifier::external_body]
fn sha256(data: &[u8]) -> (r: Vec<u8>)
    ensures
        r@ == spec_sha256(data@),
        r@.len() == 32,
{
    sha2::Sha256::digest(data).to_vec()
}

/// The lowercase hexadecimal digit of `n` (0 ≤ n < 16).
pub open spec fn hex_digit(n: nat) -> char {
    if n < 10 {
        (('0' as nat) + n) as char
    } else {
        (('a' as nat) + n - 10) as char
    }
}

/// The bytes as lowercase hexadecimal, two digits per byte.
pub open spec fn hex_encode(bytes: Seq<u8>) -> Seq<char>
    decreases bytes.len(),
{
    if bytes.len() == 0 {
        Seq::empty()
    } else {
        let b = bytes.last();
        hex_encode(bytes.drop_last()) + seq![hex_digit((b / 16) as nat), hex_digit((b % 16) as nat)]
    }
}

/// A lowercase hexadecimal digit character.
pub open spec fn is_hex_char(c: char) -> bool {
    ('0' <= c <= '9') || ('a' <= c <= 'f')
}

fn hex_char(n: u8) -> (r: char)
    requires
        n < 16,
    ensures
        r == hex_digit(n as nat),
        is_hex_char(r),
{
    if n < 10 {
        (48u8 + n) as char
    } else {
        (87u8 + n) as char
    }
}

proof fn lemma_hex_encode(bytes: Seq<u8>)
    ensures
        hex_encode(bytes).len() == 2 * bytes.len(),
        forall|i: int| 0 <= i < hex_encode(bytes).len() ==> #[trigger] is_hex_char(hex_encode(bytes)[i]),
    decreases bytes.len(),
{
    if bytes.len() > 0 {
        lemma_hex_encode(bytes.drop_last());
        let b = bytes.last();
        assert(is_hex_char(hex_digit((b / 16) as nat)));
        assert(is_hex_char(hex_digit((b % 16) as nat)));
    }
}

/// The content hash of a document: SHA-256 in lowercase hexadecimal.
pub open spec fn spec_hash_content(content: Seq<u8>) -> Seq<char> {
    hex_encode(spec_sha256(content))
}

/// SHA-256 of file content, as 64 lowercase hexadecimal characters; used to
/// detect changes.
pub fn hash_content(content: &[u8]) -> (r: String)
    ensures
        r@ == spec_hash_content(content@),
        r@.len() == 64,
        forall|i: int| 0 <= i < r@.len() ==> #[trigger] is_hex_char(r@[i]),
{
    let digest = sha256(content);
    let mut out: Vec<char> = Vec::new();
    let mut i: usize = 0;
    while i < digest.len()
        invariant
            i <= digest.len(),
            out@ == hex_encode(digest@.take(i as int)),
        decreases digest.len() - i,
    {
        let b = digest[i];
        assert(digest@.take(i + 1).drop_last() == digest@.take(i as int));
        out.push(hex_char(b / 16));
        out.push(hex_char(b % 16));
        assert(out@ =~= hex_encode(digest@.take(i + 1)));
        i = i + 1;
    }
    assert(digest@.take(digest.len() as int) == digest@);
    proof {
        lemma_hex_encode(digest@);
    }
    from_chars(&out)
}

// ─── Changes ─────────────────────────────────────────────────────────────────

/// A file found under the watch paths.
#[derive(Debug, Clone)]
pub struct LocalFile {
    /// Path relative to the configuration directory (or absolute).
    pub rel_path: String,
    pub abs_path: String,
    /// The hash of its current content; `None` when it could not be read.
    pub hash: Option<String>,
}

/// What a sync does: the files to (re)index and the paths to remove.
#[derive(Debug)]
pub struct SyncChanges {
    /// (relative path, absolute path)
    pub to_upsert: Vec<(String, String)>,
    /// Relative paths that are indexed but no longer on disk.
    pub to_delete: Vec<String>,
}

/// The first position of `path` in the index's (path, hash) table, or -1.
pub open spec fn db_index(db: Seq<(String, String)>, path: Seq<char>) -> int
    decreases db.len(),
{
    if db.len() == 0 {
        -1
    } else {
        let r = db_index(db.drop_last(), path);
        if r >= 0 {
            r
        } else if db.last().0@ == path {
            db.len() - 1
        } else {
            -1
        }
    }
}

/// A local file needs (re)indexing: always under `force`; else when the
/// index does not hold it, when it cannot be read, or when its hash
/// differs from the indexed one.
pub open spec fn needs_update(f: LocalFile, db: Seq<(String, String)>, force: bool) -> bool {
    let i = db_index(db, f.rel_path@);
    force || i < 0 || match f.hash {
        Some(h) => h@ != db[i].1@,
        None => true,
    }
}

/// Whether some local file has the path.
pub open spec fn is_local(local: Seq<LocalFile>, path: Seq<char>) -> bool {
    exists|j: int| 0 <= j < local.len() && #[trigger] local[j].rel_path@ == path
}

/// The files to (re)index, in order.
pub open spec fn upserts(local: Seq<LocalFile>, db: Seq<(String, String)>, force: bool) -> Seq<(Seq<char>, Seq<char>)>
    decreases local.len(),
{
    if local.len() == 0 {
        Seq::empty()
    } else {
        let prev = upserts(local.drop_last(), db, force);
        let f = local.last();
        if needs_update(f, db, force) {
            prev.push((f.rel_path@, f.abs_path@))
        } else {
            prev
        }
    }
}

/// The indexed paths with no local file, in index order.
pub open spec fn deletions(db: Seq<(String, String)>, local: Seq<LocalFile>) -> Seq<Seq<char>>
    decreases db.len(),
{
    if db.len() == 0 {
        Seq::empty()
    } else {
        let prev = deletions(db.drop_last(), local);
        let p = db.last().0@;
        if is_local(local, p) {
            prev
        } else {
            prev.push(p)
        }
    }
}

/// The views of (relative, absolute) path pairs.
pub open spec fn pair_views(v: Seq<(String, String)>) -> Seq<(Seq<char>, Seq<char>)> {
    Seq::new(v.len(), |i: int| (v[i].0@, v[i].1@))
}

fn find_db(db: &Vec<(String, String)>, path: &Vec<char>) -> (r: Option<usize>)
    ensures
        match r {
            Some(i) => i < db.len() && i as int == db_index(db@, path@),
            None => db_index(db@, path@) == -1,
        },
{
    let mut k: usize = 0;
    while k < db.len()
        invariant
            k <= db.len(),
            db_index(db@.take(k as int), path@) == -1,
        decreases db.len() - k,
    {
        assert(db@.take(k as int + 1).drop_last() == db@.take(k as int));
        let kc = to_chars(db[k].0.as_str());
        if chars_eq(&kc, path) {
            proof {
                lemma_db_index_prefix(db@, path@, (k + 1) as nat);
            }
            return Some(k);
        }
        k = k + 1;
    }
    assert(db@.take(db.len() as int) == db@);
    None
}

proof fn lemma_db_index_prefix(db: Seq<(String, String)>, path: Seq<char>, k: nat)
    requires
        1 <= k <= db.len(),
        db_index(db.take(k as int), path) >= 0,
    ensures
        db_index(db, path) == db_index(db.take(k as int), path),
    decreases db.len() - k,
{
    if k < db.len() {
        let k1: nat = k + 1;
        assert(db.take(k1 as int).drop_last() == db.take(k as int));
        assert(db_index(db.take(k1 as int), path) == db_index(db.take(k as int), path));
        lemma_db_index_prefix(db, path, k1);
    } else {
        assert(db.take(k as int) == db);
    }
}

fn local_has(local: &Vec<LocalFile>, path: &Vec<char>) -> (r: bool)
    ensures
        r == is_local(local@, path@),
{
    let mut k: usize = 0;
    while k < local.len()
        invariant
            k <= local.len(),
            forall|j: int| 0 <= j < k ==> #[trigger] local@[j].rel_path@ != path@,
        decreases local.len() - k,
    {
        let kc = to_chars(local[k].rel_path.as_str());
        if chars_eq(&kc, path) {
            assert(local@[k as int].rel_path@ == path@);
            return true;
        }
        k = k + 1;
    }
    false
}

/// Decides what a sync changes: every local file that is new, unreadable,
/// changed (its hash differs from the indexed one) or forced is
/// (re)indexed; every indexed path with no local file is removed.
pub fn compute_changes(local_files: &Vec<LocalFile>, db_hashes: &Vec<(String, String)>, force: bool) -> (r: SyncChanges)
    ensures
        pair_views(r.to_upsert@) == upserts(local_files@, db_hashes@, force),
        string_views(r.to_delete@) == deletions(db_hashes@, local_files@),
{
    let mut to_upsert: Vec<(String, String)> = Vec::new();
    let mut i: usize = 0;
    while i < local_files.len()
        invariant
            i <= local_files.len(),
            pair_views(to_upsert@) == upserts(local_files@.take(i as int), db_hashes@, force),
        decreases local_files.len() - i,
    {
        assert(local_files@.take(i + 1).drop_last() == local_files@.take(i as int));
        let f = &local_files[i];
        let rc = to_chars(f.rel_path.as_str());
        let update = if force {
            true
        } else {
            match find_db(db_hashes, &rc) {
                None => true,
                Some(k) => match &f.hash {
                    Some(h) => {
                        let hc = to_chars(h.as_str());
                        let dc = to_chars(db_hashes[k].1.as_str());
                        !chars_eq(&hc, &dc)
                    },
                    None => true,
                },
            }
        };
        assert(update == needs_update(*f, db_hashes@, force));
        if update {
            let ghost before = to_upsert@;
            to_upsert.push((f.rel_path.clone(), f.abs_path.clone()));
            assert(pair_views(to_upsert@) =~= pair_views(before).push((f.rel_path@, f.abs_path@)));
        }
        i = i + 1;
    }
    assert(local_files@.take(local_files.len() as int) == local_files@);
    let mut to_delete: Vec<String> = Vec::new();
    let mut j: usize = 0;
    while j < db_hashes.len()
        invariant
            j <= db_hashes.len(),
            string_views(to_delete@) == deletions(db_hashes@.take(j as int), local_files@),
        decreases db_hashes.len() - j,
    {
        assert(db_hashes@.take(j + 1).drop_last() == db_hashes@.take(j as int));
        let pc = to_chars(db_hashes[j].0.as_str());
        if !local_has(local_files, &pc) {
            let ghost before = to_delete@;
            to_delete.push(db_hashes[j].0.clone());
            assert(string_views(to_delete@) =~= string_views(before).push(db_hashes@[j as int].0@));
        }
        j = j + 1;
    }
    assert(db_hashes@.take(db_hashes.len() as int) == db_hashes@);
    SyncChanges { to_upsert, to_delete }
}

proof fn lemma_upserts(local: Seq<LocalFile>, db: Seq<(String, String)>, force: bool, x: (Seq<char>, Seq<char>))
    ensures
        upserts(local, db, force).contains(x) <==> exists|j: int|
            0 <= j < local.len() && #[trigger] needs_update(local[j], db, force) && x == (local[j].rel_path@, local[j].abs_path@),
    decreases local.len(),
{
    if local.len() > 0 {
        let prev = local.drop_last();
        lemma_upserts(prev, db, force, x);
        let f = local.last();
        if upserts(local, db, force).contains(x) {
            if upserts(prev, db, force).contains(x) {
                let j = choose|j: int| 0 <= j < prev.len() && #[trigger] needs_update(prev[j], db, force) && x == (prev[j].rel_path@, prev[j].abs_path@);
                assert(local[j] == prev[j]);
            } else {
                assert(needs_update(f, db, force) && x == (f.rel_path@, f.abs_path@));
                assert(local[local.len() - 1] == f);
            }
        }
        if exists|j: int| 0 <= j < local.len() && #[trigger] needs_update(local[j], db, force) && x == (local[j].rel_path@, local[j].abs_path@) {
            let j = choose|j: int| 0 <= j < local.len() && #[trigger] needs_update(local[j], db, force) && x == (local[j].rel_path@, local[j].abs_path@);
            if j < local.len() - 1 {
                assert(prev[j] == local[j]);
                assert(upserts(prev, db, force).contains(x));
                let k = choose|k: int| 0 <= k < upserts(prev, db, force).len() && upserts(prev, db, force)[k] == x;
                if needs_update(f, db, force) {
                    assert(upserts(local, db, force)[k] == x);
                } else {
                    assert(upserts(local, db, force)[k] == x);
                }
            } else {
                let n = upserts(prev, db, force).len();
                assert(upserts(local, db, force)[n as int] == x);
            }
        }
    }
}

proof fn lemma_deletions(db: Seq<(String, String)>, local: Seq<LocalFile>, p: Seq<char>)
    ensures
        deletions(db, local).contains(p) <==> (!is_local(local, p) && exists|i: int| 0 <= i < db.len() && #[trigger] db[i].0@ == p),
    decreases db.len(),
{
    if db.len() > 0 {
        let prev = db.drop_last();
        lemma_deletions(prev, local, p);
        let q = db.last().0@;
        if deletions(db, local).contains(p) {
            if deletions(prev, local).contains(p) {
                let i = choose|i: int| 0 <= i < prev.len() && #[trigger] prev[i].0@ == p;
                assert(db[i] == prev[i]);
            } else {
                assert(db[db.len() - 1].0@ == p);
            }
        }
        if !is_local(local, p) && exists|i: int| 0 <= i < db.len() && #[trigger] db[i].0@ == p {
            let i = choose|i: int| 0 <= i < db.len() && #[trigger] db[i].0@ == p;
            if i < db.len() - 1 {
                assert(prev[i] == db[i]);
                let k = choose|k: int| 0 <= k < deletions(prev, local).len() && deletions(prev, local)[k] == p;
                assert(deletions(db, local)[k] == p);
            } else {
                let n = deletions(prev, local).len();
                assert(deletions(db, local)[n as int] == p);
            }
        }
    }
}

/// A sync never both updates and removes a path: it updates local files
/// only, and removes only paths with no local file.  Without `force`, a
/// file whose hash matches the index is left alone, and a file the index
/// does not hold is always indexed.
pub proof fn law_sync_changes(local: Seq<LocalFile>, db: Seq<(String, String)>, force: bool)
    ensures
        forall|x: (Seq<char>, Seq<char>)| #[trigger] upserts(local, db, force).contains(x) ==> is_local(local, x.0),
        forall|p: Seq<char>| #[trigger] deletions(db, local).contains(p) ==> !is_local(local, p),
        forall|j: int| 0 <= j < local.len() && db_index(db, local[j].rel_path@) < 0
            ==> #[trigger] upserts(local, db, force).contains((local[j].rel_path@, local[j].abs_path@)),
        forall|j: int| 0 <= j < local.len() && !force && db_index(db, local[j].rel_path@) >= 0
            && local[j].hash == Some(db[db_index(db, local[j].rel_path@)].1) ==> !#[trigger] needs_update(local[j], db, force),
{
    assert forall|x: (Seq<char>, Seq<char>)| #[trigger] upserts(local, db, force).contains(x) implies is_local(local, x.0) by {
        lemma_upserts(local, db, force, x);
        let j = choose|j: int| 0 <= j < local.len() && #[trigger] needs_update(local[j], db, force) && x == (local[j].rel_path@, local[j].abs_path@);
        assert(local[j].rel_path@ == x.0);
    }
    assert forall|p: Seq<char>| #[trigger] deletions(db, local).contains(p) implies !is_local(local, p) by {
        lemma_deletions(db, local, p);
    }
    assert forall|j: int| 0 <= j < local.len() && db_index(db, local[j].rel_path@) < 0
        implies #[trigger] upserts(local, db, force).contains((local[j].rel_path@, local[j].abs_path@)) by {
        lemma_upserts(local, db, force, (local[j].rel_path@, local[j].abs_path@));
        assert(needs_update(local[j], db, force));
    }
}

// ─── Which knowledge bases, which work ───────────────────────────────────────

/// The first knowledge base with the name, or -1.
pub open spec fn first_named(kbs: Seq<(Seq<char>, bool)>, n: Seq<char>) -> int
    decreases kbs.len(),
{
    if kbs.len() == 0 {
        -1
    } else {
        let r = first_named(kbs.drop_last(), n);
        if r >= 0 {
            r
        } else if kbs.last().0 == n {
            kbs.len() - 1
        } else {
            -1
        }
    }
}

/// The positions among the first `k` knowledge bases that have `auto_sync`.
pub open spec fn auto_sync_indices(kbs: Seq<(Seq<char>, bool)>, k: nat) -> Seq<int>
    decreases k,
{
    if k == 0 {
        Seq::empty()
    } else {
        let prev = auto_sync_indices(kbs, (k - 1) as nat);
        if kbs[k - 1].1 {
            prev.push(k - 1)
        } else {
            prev
        }
    }
}

/// The views of (name, auto_sync) pairs.
pub open spec fn kb_flags(v: Seq<(String, bool)>) -> Seq<(Seq<char>, bool)> {
    Seq::new(v.len(), |i: int| (v[i].0@, v[i].1))
}

/// The positions of the knowledge bases a sync covers: the one named
/// (`Err` with the name when it is not configured), else those with
/// `auto_sync` in order.
pub fn kbs_to_sync(kb_name: Option<&str>, kbs: &Vec<(String, bool)>) -> (r: Result<Vec<usize>, String>)
    ensures
        kb_name matches Some(n) ==> (first_named(kb_flags(kbs@), n@) >= 0 ==> (r matches Ok(v) && v@.len() == 1
            && v@[0] as int == first_named(kb_flags(kbs@), n@))),
        kb_name matches Some(n) ==> (first_named(kb_flags(kbs@), n@) < 0 ==> (r matches Err(e) && e@ == n@)),
        kb_name is None ==> (r matches Ok(v) && v@.len() == auto_sync_indices(kb_flags(kbs@), kbs@.len()).len()
            && forall|i: int| 0 <= i < v@.len() ==> #[trigger] v@[i] as int == auto_sync_indices(kb_flags(kbs@), kbs@.len())[i]),
{
    let ghost kf = kb_flags(kbs@);
    match kb_name {
        Some(n) => {
            let nc = to_chars(n);
            let mut k: usize = 0;
            while k < kbs.len()
                invariant
                    k <= kbs.len(),
                    kf == kb_flags(kbs@),
                    nc@ == n@,
                    kb_name == Some(n),
                    first_named(kf.take(k as int), n@) == -1,
                decreases kbs.len() - k,
            {
                assert(kf.take(k as int + 1).drop_last() == kf.take(k as int));
                let kc = to_chars(kbs[k].0.as_str());
                if chars_eq(&kc, &nc) {
                    assert(kf[k as int].0 == n@);
                    assert(kf.take(k as int + 1).last() == kf[k as int]);
                    assert(first_named(kf.take(k as int + 1), n@) == k as int);
                    proof {
                        lemma_first_named_prefix(kf, n@, (k + 1) as nat);
                    }
                    let mut v: Vec<usize> = Vec::new();
                    v.push(k);
                    assert(first_named(kb_flags(kbs@), n@) == k as int);
                    assert(v@.len() == 1 && v@[0] == k);
                    return Ok(v);
                }
                k = k + 1;
            }
            assert(kf.take(kbs.len() as int) == kf);
            Err(string_of(n))
        },
        None => {
            let mut v: Vec<usize> = Vec::new();
            let mut k: usize = 0;
            while k < kbs.len()
                invariant
                    k <= kbs.len(),
                    kf == kb_flags(kbs@),
                    v@.len() == auto_sync_indices(kf, k as nat).len(),
                    forall|i: int| 0 <= i < v@.len() ==> #[trigger] v@[i] as int == auto_sync_indices(kf, k as nat)[i],
                decreases kbs.len() - k,
            {
                if kbs[k].1 {
                    v.push(k);
                }
                k = k + 1;
            }
            Ok(v)
        },
    }
}

proof fn lemma_first_named_prefix(kbs: Seq<(Seq<char>, bool)>, n: Seq<char>, k: nat)
    requires
        1 <= k <= kbs.len(),
        first_named(kbs.take(k as int), n) >= 0,
    ensures
        first_named(kbs, n) == first_named(kbs.take(k as int), n),
    decreases kbs.len() - k,
{
    if k < kbs.len() {
        let k1: nat = k + 1;
        assert(kbs.take(k1 as int).drop_last() == kbs.take(k as int));
        assert(first_named(kbs.take(k1 as int), n) == first_named(kbs.take(k as int), n));
        lemma_first_named_prefix(kbs, n, k1);
    } else {
        assert(kbs.take(k as int) == kbs);
    }
}

/// Whether every chunk has to be embedded again: when asked to, or when
/// chunks exist but none has a vector while vectors are configured (the
/// dimensions changed).
pub fn needs_reembed(reembed: bool, chunk_count: i64, vec_count: i64, vec_dims: usize) -> (r: bool)
    ensures
        r == (reembed || (chunk_count > 0 && vec_count == 0 && vec_dims > 0)),
{
    reembed || (chunk_count > 0 && vec_count == 0 && vec_dims > 0)
}

/// The most texts one embedding request carries.
pub const EMBED_BATCH: usize = 100;

/// Splits `n` items into consecutive batches of `size` (`slice::chunks`):
/// `[start, end)` ranges from 0 to `n`, each holding `size` items but the
/// last, which holds between 1 and `size`.
pub fn batches(n: usize, size: usize) -> (r: Vec<(usize, usize)>)
    requires
        size > 0,
    ensures
        n == 0 ==> r@.len() == 0,
        n > 0 ==> r@.len() > 0 && r@[0].0 == 0 && r@.last().1 == n,
        forall|i: int| 0 <= i < r@.len() - 1 ==> #[trigger] r@[i].1 == r@[i + 1].0 && r@[i].1 - r@[i].0 == size,
        r@.len() > 0 ==> 0 < r@.last().1 - r@.last().0 <= size,
{
    let mut v: Vec<(usize, usize)> = Vec::new();
    let mut start: usize = 0;
    while start < n
        invariant
            start <= n,
            size > 0,
            v@.len() == 0 ==> start == 0,
            v@.len() > 0 ==> v@[0].0 == 0 && v@.last().1 == start && 0 < v@.last().1 - v@.last().0 <= size,
            forall|i: int| 0 <= i < v@.len() - 1 ==> #[trigger] v@[i].1 == v@[i + 1].0 && v@[i].1 - v@[i].0 == size,
            v@.len() > 0 && start < n ==> v@.last().1 - v@.last().0 == size,
        decreases n - start,
    {
        let end = if n - start > size { start + size } else { n };
        let ghost before = v@;
        v.push((start, end));
        assert forall|i: int| 0 <= i < v@.len() - 1 implies #[trigger] v@[i].1 == v@[i + 1].0 && v@[i].1 - v@[i].0 == size by {
            if i < before.len() - 1 {
                assert(v@[i] == before[i] && v@[i + 1] == before[i + 1]);
            } else {
                assert(v@[i] == before.last());
            }
        }
        start = end;
    }
    v
}

// ─── Which files are indexed ─────────────────────────────────────────────────

/// Whether `glob::Pattern::new` accepts the pattern text.
pub uninterp spec fn spec_glob_valid(pattern: Seq<char>) -> bool;

/// What `glob::Pattern::matches` gives for the compiled pattern text and a
/// path.
pub uninterp spec fn spec_glob_matches(pattern: Seq<char>, s: Seq<char>) -> bool;

/// `glob::Pattern::new(pattern).is_ok()`.
#[verifier::external_body]
fn glob_valid(pattern: &str) -> (r: bool)
    ensures
        r == spec_glob_valid(pattern@),
{
    glob::Pattern::new(pattern).is_ok()
}

/// `glob::Pattern::matches`, on the pattern compiled from its text.
#[verifier::external_body]
fn glob_matches(pattern: &str, s: &str) -> (r: bool)
    requires
        spec_glob_valid(pattern@),
    ensures
        r == spec_glob_matches(pattern@, s@),
{
    match glob::Pattern::new(pattern) {
        Ok(p) => p.matches(s),
        Err(_) => false,
    }
}

/// A line of `.brainjarignore` that holds a pattern: not blank and not a
/// `#` comment.
pub open spec fn is_pattern_line(l: Seq<char>) -> bool {
    trim(l).len() > 0 && !(trim_start(l).len() > 0 && trim_start(l)[0] == '#')
}

/// The pattern text of a line: trimmed, without trailing `/`.
pub open spec fn pattern_text(l: Seq<char>) -> Seq<char> {
    strip_trailing_slash(trim(l))
}

/// The patterns of the first `k` lines that hold one and compile.
pub open spec fn patterns_of_lines(ls: Seq<Seq<char>>, k: nat) -> Seq<Seq<char>>
    decreases k,
{
    if k == 0 {
        Seq::empty()
    } else {
        let prev = patterns_of_lines(ls, (k - 1) as nat);
        let l = ls[k - 1];
        if is_pattern_line(l) && spec_glob_valid(pattern_text(l)) {
            prev.push(pattern_text(l))
        } else {
            prev
        }
    }
}

/// The ignore patterns of a `.brainjarignore` file: each line that is not
/// blank or a `#` comment, trimmed and without trailing `/`, kept when it
/// compiles as a glob pattern.
pub fn ignore_patterns(content: &str) -> (r: Vec<String>)
    ensures
        string_views(r@) == patterns_of_lines(lines_of(content@), lines_of(content@).len()),
{
    let cc = to_chars(content);
    let lines = split_lines(&cc);
    let ghost ls = lines_of(content@);
    let mut out: Vec<String> = Vec::new();
    let mut i: usize = 0;
    while i < lines.len()
        invariant
            i <= lines.len(),
            views(lines@) == ls,
            string_views(out@) == patterns_of_lines(ls, i as nat),
        decreases lines.len() - i,
    {
        let l = &lines[i];
        assert(ls[i as int] == l@);
        let t = trim_chars(l);
        let ts = trim_start_chars(l);
        if t.len() > 0 && !(ts.len() > 0 && ts[0] == '#') {
            let p = crate::init::strip_trailing_slash_chars(&t);
            let ps = from_chars(&p);
            if glob_valid(ps.as_str()) {
                let ghost before = out@;
                out.push(ps);
                assert(string_views(out@) =~= string_views(before).push(pattern_text(l@)));
            }
        }
        i = i + 1;
    }
    out
}

/// The pattern is a valid glob pattern that matches the path or the file
/// name.
pub open spec fn hits(pattern: Seq<char>, path: Seq<char>, name: Seq<char>) -> bool {
    spec_glob_valid(pattern) && (spec_glob_matches(pattern, path) || spec_glob_matches(pattern, name))
}

/// Some pattern matches the path or the file name.
pub open spec fn is_ignored(patterns: Seq<Seq<char>>, path: Seq<char>, name: Seq<char>) -> bool {
    exists|i: int| 0 <= i < patterns.len() && #[trigger] hits(patterns[i], path, name)
}

/// The file extensions indexed by default.
pub open spec fn text_extensions() -> Seq<Seq<char>> {
    seq![
        "md"@, "txt"@, "rs"@, "toml"@, "yaml"@, "yml"@, "json"@, "py"@, "js"@, "ts"@, "tsx"@, "jsx"@,
        "sh"@, "css"@, "html"@, "xml"@, "csv"@, "sql"@, "tf"@, "hcl"@, "conf"@, "ini"@, "cfg"@, "env"@,
    ]
}

/// The lowercased extension of a path, empty when it has none.
pub open spec fn lower_ext(path: Seq<char>) -> Seq<char> {
    spec_lowercase(
        match spec_extension(path) {
            Some(e) => e,
            None => Seq::empty(),
        },
    )
}

/// A file found in a watched directory is indexed when no ignore pattern
/// matches its path or name and its (lowercased) extension is a known text
/// extension.
pub open spec fn spec_is_indexable(patterns: Seq<Seq<char>>, path: Seq<char>, name: Seq<char>) -> bool {
    !is_ignored(patterns, path, name) && text_extensions().contains(lower_ext(path))
}

/// Which files are indexed: a file that no ignore pattern matches is indexed
/// exactly when its lowercased extension is md, txt, rs, toml, yaml, yml,
/// json, py, js, ts, tsx, jsx, sh, css, html, xml, csv, sql, tf, hcl, conf,
/// ini, cfg or env; a file an ignore pattern matches never is; with no
/// patterns at all only the extension decides.
pub proof fn law_indexable(patterns: Seq<Seq<char>>, path: Seq<char>, name: Seq<char>)
    ensures
        !is_ignored(patterns, path, name) ==> (spec_is_indexable(patterns, path, name) <==> seq![
            "md"@, "txt"@, "rs"@, "toml"@, "yaml"@, "yml"@, "json"@, "py"@, "js"@, "ts"@, "tsx"@, "jsx"@,
            "sh"@, "css"@, "html"@, "xml"@, "csv"@, "sql"@, "tf"@, "hcl"@, "conf"@, "ini"@, "cfg"@, "env"@,
        ].contains(lower_ext(path))),
        is_ignored(patterns, path, name) ==> !spec_is_indexable(patterns, path, name),
        spec_is_indexable(Seq::empty(), path, name) <==> seq![
            "md"@, "txt"@, "rs"@, "toml"@, "yaml"@, "yml"@, "json"@, "py"@, "js"@, "ts"@, "tsx"@, "jsx"@,
            "sh"@, "css"@, "html"@, "xml"@, "csv"@, "sql"@, "tf"@, "hcl"@, "conf"@, "ini"@, "cfg"@, "env"@,
        ].contains(lower_ext(path)),
{
    assert(!is_ignored(Seq::empty(), path, name));
}

/// Whether a file found in a watched directory is indexed: not matched by
/// any ignore pattern (on its path or its name), and of a known text
/// extension (case-insensitive).  A pattern that does not compile matches
/// nothing.
pub fn is_indexable(patterns: &Vec<String>, path: &str, name: &str) -> (r: bool)
    ensures
        r == spec_is_indexable(string_views(patterns@), path@, name@),
{
    let ghost ps = string_views(patterns@);
    let mut i: usize = 0;
    while i < patterns.len()
        invariant
            i <= patterns.len(),
            ps == string_views(patterns@),
            forall|k: int| 0 <= k < i ==> !#[trigger] hits(ps[k], path@, name@),
        decreases patterns.len() - i,
    {
        assert(ps[i as int] == patterns@[i as int]@);
        let hit = glob_valid(patterns[i].as_str()) && (glob_matches(patterns[i].as_str(), path)
            || glob_matches(patterns[i].as_str(), name));
        if hit {
            assert(hits(ps[i as int], path@, name@));
            return false;
        }
        assert(!hits(ps[i as int], path@, name@));
        i = i + 1;
    }
    let ext = match path_extension(path) {
        Some(e) => to_lowercase(e.as_str()),
        None => to_lowercase(""),
    };
    proof {
        reveal_strlit("");
        assert(""@ =~= Seq::<char>::empty());
    }
    let ec = to_chars(ext.as_str());
    let exts: [&str; 24] = [
        "md", "txt", "rs", "toml", "yaml", "yml", "json", "py", "js", "ts", "tsx", "jsx", "sh",
        "css", "html", "xml", "csv", "sql", "tf", "hcl", "conf", "ini", "cfg", "env",
    ];
    assert(str_views(exts@) =~= text_extensions());
    is_one_of(&ec, &exts)
}

/// The directories never descended into.
pub open spec fn skip_dirs() -> Seq<Seq<char>> {
    seq![
        ".git"@, ".venv"@, "node_modules"@, "__pycache__"@, "target"@, ".brainjar"@, "dist"@,
        "build"@, ".next"@, ".nuxt"@, ".idea"@, ".vscode"@,
    ]
}

/// Whether a directory is skipped while walking a watch path: one of the
/// default excluded directories, or any hidden (dot) directory.
pub fn skip_dir(name: &str) -> (r: bool)
    ensures
        r == (skip_dirs().contains(name@) || (name@.len() > 0 && name@[0] == '.')),
{
    let nc = to_chars(name);
    let dirs: [&str; 12] = [
        ".git", ".venv", "node_modules", "__pycache__", "target", ".brainjar", "dist", "build",
        ".next", ".nuxt", ".idea", ".vscode",
    ];
    assert(str_views(dirs@) =~= skip_dirs());
    is_one_of(&nc, &dirs) || (nc.len() > 0 && nc[0] == '.')
}

/// The path a file is indexed under: relative to the configuration
/// directory when it lies inside it, else the absolute path.
pub fn relative_path(abs: &str, config_dir: &str) -> (r: String)
    ensures
        r@ == match spec_strip_prefix(abs@, config_dir@) {
            Some(rel) => rel,
            None => abs@,
        },
{
    match path_strip_prefix(abs, config_dir) {
        Some(rel) => rel,
        None => string_of(abs),
    }
}

// ─── The plan of a sync ──────────────────────────────────────────────────────

/// The first absolute path recorded for `rel`, if any.
pub open spec fn lookup_path(local: Seq<(Seq<char>, Seq<char>)>, rel: Seq<char>) -> Option<Seq<char>>
    decreases local.len(),
{
    if local.len() == 0 {
        None
    } else if local[0].0 == rel {
        Some(local[0].1)
    } else {
        lookup_path(local.drop_first(), rel)
    }
}

/// Whether `rel` is among the files a sync updates.
pub open spec fn is_upserted(upserts: Seq<(Seq<char>, Seq<char>)>, rel: Seq<char>) -> bool {
    exists|i: int| 0 <= i < upserts.len() && #[trigger] upserts[i].0 == rel
}

/// Documents still awaiting extraction from an earlier sync that this sync
/// does not update and that are still on disk, in the stored order, each
/// with its file.
pub open spec fn spec_pending(
    unextracted: Seq<Seq<char>>,
    upserts: Seq<(Seq<char>, Seq<char>)>,
    local: Seq<(Seq<char>, Seq<char>)>,
) -> Seq<(Seq<char>, Seq<char>)>
    decreases unextracted.len(),
{
    if unextracted.len() == 0 {
        Seq::empty()
    } else {
        let prev = spec_pending(unextracted.drop_last(), upserts, local);
        let p = unextracted.last();
        if !is_upserted(upserts, p) && lookup_path(local, p) is Some {
            prev.push((p, lookup_path(local, p).unwrap()))
        } else {
            prev
        }
    }
}

/// What a sync does once it knows its changes.
pub struct SyncPlan {
    /// Documents awaiting extraction from an earlier sync (none when forced).
    pub pending: Vec<(String, String)>,
    /// Nothing is updated, removed, pending or to be re-embedded.
    pub nothing_to_do: bool,
    /// Only pending extractions are left.
    pub only_pending: bool,
    /// The documents to extract entities from: the updated ones, then the
    /// pending ones.
    pub to_extract: Vec<(String, String)>,
    /// Every stored chunk is embedded again.
    pub reembed_everything: bool,
    /// The chunks of the updated documents are embedded.
    pub embed_updated: bool,
}

fn lookup_path_exec(local: &Vec<(String, String)>, rel: &Vec<char>) -> (r: Option<String>)
    ensures
        match r {
            Some(a) => lookup_path(pair_views(local@), rel@) == Some(a@),
            None => lookup_path(pair_views(local@), rel@) is None,
        },
{
    let ghost lv = pair_views(local@);
    assert(lv.skip(0) =~= lv);
    let mut i: usize = 0;
    while i < local.len()
        invariant
            i <= local.len(),
            lv == pair_views(local@),
            lookup_path(lv, rel@) == lookup_path(lv.skip(i as int), rel@),
        decreases local.len() - i,
    {
        let ghost rest = lv.skip(i as int);
        assert(rest[0] == lv[i as int]);
        assert(rest.drop_first() =~= lv.skip(i + 1));
        let c = to_chars(local[i].0.as_str());
        if chars_eq(&c, rel) {
            return Some(local[i].1.clone());
        }
        i = i + 1;
    }
    assert(lv.skip(local.len() as int).len() == 0);
    None
}

fn is_upserted_exec(upserts: &Vec<(String, String)>, rel: &Vec<char>) -> (r: bool)
    ensures
        r == is_upserted(pair_views(upserts@), rel@),
{
    let ghost uv = pair_views(upserts@);
    let mut i: usize = 0;
    while i < upserts.len()
        invariant
            i <= upserts.len(),
            uv == pair_views(upserts@),
            forall|j: int| 0 <= j < i ==> #[trigger] uv[j].0 != rel@,
        decreases upserts.len() - i,
    {
        let c = to_chars(upserts[i].0.as_str());
        if chars_eq(&c, rel) {
            assert(uv[i as int].0 == rel@);
            return true;
        }
        i = i + 1;
    }
    false
}

/// Plans a sync from its changes: the files it updates (`upserts`, each
/// with its file), how many it removes, the stored documents not yet
/// extracted, the files on disk, whether it is forced, whether every chunk
/// needs a new vector, and whether the vector table exists.
pub fn sync_plan(
    upserts: &Vec<(String, String)>,
    delete_count: usize,
    unextracted: &Vec<String>,
    local: &Vec<(String, String)>,
    force: bool,
    reembed_all: bool,
    vec_table: bool,
) -> (r: SyncPlan)
    ensures
        pair_views(r.pending@) == (if force {
            Seq::empty()
        } else {
            spec_pending(string_views(unextracted@), pair_views(upserts@), pair_views(local@))
        }),
        r.nothing_to_do == (upserts.len() == 0 && delete_count == 0 && r.pending.len() == 0 && !reembed_all),
        r.only_pending == (r.pending.len() > 0 && upserts.len() == 0 && delete_count == 0),
        pair_views(r.to_extract@) == pair_views(upserts@) + pair_views(r.pending@),
        r.reembed_everything == (reembed_all && vec_table && upserts.len() == 0),
        r.embed_updated == (upserts.len() > 0 && vec_table),
{
    let ghost uv = pair_views(upserts@);
    let ghost lv = pair_views(local@);
    let ghost xv = string_views(unextracted@);
    let mut pending: Vec<(String, String)> = Vec::new();
    if !force {
        let mut i: usize = 0;
        while i < unextracted.len()
            invariant
                i <= unextracted.len(),
                uv == pair_views(upserts@),
                lv == pair_views(local@),
                xv == string_views(unextracted@),
                pair_views(pending@) == spec_pending(xv.take(i as int), uv, lv),
            decreases unextracted.len() - i,
        {
            assert(xv.take(i + 1).drop_last() =~= xv.take(i as int));
            assert(xv.take(i + 1).last() == xv[i as int]);
            let p = to_chars(unextracted[i].as_str());
            if !is_upserted_exec(upserts, &p) {
                match lookup_path_exec(local, &p) {
                    Some(abs) => {
                        let ghost before = pair_views(pending@);
                        pending.push((unextracted[i].clone(), abs));
                        assert(pair_views(pending@) =~= before.push((xv[i as int], lookup_path(lv, xv[i as int]).unwrap())));
                    },
                    None => {},
                }
            }
            i = i + 1;
        }
        assert(xv.take(unextracted.len() as int) =~= xv);
    } else {
        assert(pair_views(pending@) =~= Seq::empty());
    }
    let mut to_extract: Vec<(String, String)> = Vec::new();
    let mut k: usize = 0;
    while k < upserts.len()
        invariant
            k <= upserts.len(),
            uv == pair_views(upserts@),
            pair_views(to_extract@) == uv.take(k as int),
        decreases upserts.len() - k,
    {
        let ghost before = pair_views(to_extract@);
        to_extract.push((upserts[k].0.clone(), upserts[k].1.clone()));
        assert(pair_views(to_extract@) =~= before.push(uv[k as int]));
        assert(uv.take(k + 1) =~= uv.take(k as int).push(uv[k as int]));
        k = k + 1;
    }
    assert(uv.take(upserts.len() as int) =~= uv);
    let ghost pv = pair_views(pending@);
    let mut m: usize = 0;
    while m < pending.len()
        invariant
            m <= pending.len(),
            pv == pair_views(pending@),
            pair_views(to_extract@) == uv + pv.take(m as int),
        decreases pending.len() - m,
    {
        let ghost before = pair_views(to_extract@);
        to_extract.push((pending[m].0.clone(), pending[m].1.clone()));
        assert(pair_views(to_extract@) =~= before.push(pv[m as int]));
        assert(uv + pv.take(m + 1) =~= (uv + pv.take(m as int)).push(pv[m as int]));
        m = m + 1;
    }
    assert(pv.take(pending.len() as int) =~= pv);
    let n_up = upserts.len();
    let np = pending.len();
    SyncPlan {
        pending,
        nothing_to_do: n_up == 0 && delete_count == 0 && np == 0 && !reembed_all,
        only_pending: np > 0 && n_up == 0 && delete_count == 0,
        to_extract,
        reembed_everything: reembed_all && vec_table && n_up == 0,
        embed_updated: n_up > 0 && vec_table,
    }
}

} // verus!

//! Watch mode's file names and lock decisions; the daemon, its signals and
//! its lock files themselves are handled outside the library.
use vstd::prelude::*;

use crate::init::{parse_usize, spec_parse_usize};
use crate::paths::{path_join, spec_join};
use crate::text::{from_chars, push_str, to_chars, trim, trim_chars};

verus! {

/// The PID file of the watch daemon in a data directory.
pub fn pid_file_path(data_dir: &str) -> (r: String)
    ensures
        r@ == spec_join(data_dir@, "brainjar-watch.pid"@),
{
    path_join(data_dir, "brainjar-watch.pid")
}

/// The lock file of a knowledge base's sync in a data directory.
pub fn lock_file_path(data_dir: &str, kb_name: &str) -> (r: String)
    ensures
        r@ == spec_join(data_dir@, kb_name@ + ".lock"@),
{
    let mut v: Vec<char> = Vec::new();
    push_str(&mut v, kb_name);
    push_str(&mut v, ".lock");
    let name = from_chars(&v);
    path_join(data_dir, name.as_str())
}

/// The process a lock file names: its content, trimmed, read as a number
/// that fits in `u32`; `None` when it names none (then the lock is stale).
pub fn lock_owner(contents: &str) -> (r: Option<u32>)
    ensures
        r == match spec_parse_usize(trim(contents@)) {
            Some(n) => if n <= u32::MAX { Some(n as u32) } else { None },
            None => None,
        },
{
    let cc = to_chars(contents);
    let t = trim_chars(&cc);
    let ts = from_chars(&t);
    match parse_usize(ts.as_str()) {
        Some(n) => if n <= 4294967295usize { Some(n as u32) } else { None },
        None => None,
    }
}

} // verus!

use vstd::prelude::*;

pub mod chunk;
pub mod chunk_laws;
pub mod config;
pub mod db;
pub mod dedup;
pub mod embed;
pub mod extract;
pub mod fuzzy;
pub mod graph;
pub mod init;
pub mod local_search;
pub mod mcp;
pub mod paths;
pub mod search;
pub mod state;
pub mod sync;
pub mod text;
pub mod treesitter;
pub mod watch;

verus! {
} // verus!

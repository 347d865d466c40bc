//! The MCP server's logic: which method and tool a request names, how the
//! search tool's mode and exclusions are read, and the text the status and
//! retrieval tools answer with.  The JSON-RPC transport lives outside the
//! library.
use vstd::prelude::*;

use crate::db::ChunkRow;
use crate::init::{decimal, decimal_string};
use crate::search::{spec_from_flags, SearchMode, default_engines};
use crate::text::{
    chars_eq, chars_eq_str, from_chars, join_lines, join_with, push_str, string_views, to_chars, append_chars,
    str_views, string_of, join_strings,
};

verus! {

/// The JSON-RPC methods the server answers.
#[derive(Debug, Clone, Copy, PartialEq, Eq)]
pub enum McpMethod {
    Initialize,
    ToolsList,
    ToolsCall,
    Initialized,
    Unknown,
}

/// The method a request names.
pub open spec fn spec_method(name: Seq<char>) -> McpMethod {
    if name == "initialize"@ {
        McpMethod::Initialize
    } else if name == "tools/list"@ {
        McpMethod::ToolsList
    } else if name == "tools/call"@ {
        McpMethod::ToolsCall
    } else if name == "notifications/initialized"@ {
        McpMethod::Initialized
    } else {
        McpMethod::Unknown
    }
}

/// The method a request names (`Unknown` for any other name).
pub fn method_kind(name: &str) -> (r: McpMethod)
    ensures
        r == spec_method(name@),
{
    let n = to_chars(name);
    if chars_eq_str(&n, "initialize") {
        McpMethod::Initialize
    } else if chars_eq_str(&n, "tools/list") {
        McpMethod::ToolsList
    } else if chars_eq_str(&n, "tools/call") {
        McpMethod::ToolsCall
    } else if chars_eq_str(&n, "notifications/initialized") {
        McpMethod::Initialized
    } else {
        McpMethod::Unknown
    }
}

/// The tools the server offers.
#[derive(Debug, Clone, Copy, PartialEq, Eq)]
pub enum McpTool {
    MemorySearch,
    MemorySync,
    MemoryStatus,
    MemoryList,
    RetrieveChunk,
    Unknown,
}

/// The tool a call names.
pub open spec fn spec_tool(name: Seq<char>) -> McpTool {
    if name == "memory_search"@ {
        McpTool::MemorySearch
    } else if name == "memory_sync"@ {
        McpTool::MemorySync
    } else if name == "memory_status"@ {
        McpTool::MemoryStatus
    } else if name == "memory_list"@ {
        McpTool::MemoryList
    } else if name == "retrieve_chunk"@ {
        McpTool::RetrieveChunk
    } else {
        McpTool::Unknown
    }
}

/// The tool a call names (`Unknown` for any other name).
pub fn tool_kind(name: &str) -> (r: McpTool)
    ensures
        r == spec_tool(name@),
{
    let n = to_chars(name);
    if chars_eq_str(&n, "memory_search") {
        McpTool::MemorySearch
    } else if chars_eq_str(&n, "memory_sync") {
        McpTool::MemorySync
    } else if chars_eq_str(&n, "memory_status") {
        McpTool::MemoryStatus
    } else if chars_eq_str(&n, "memory_list") {
        McpTool::MemoryList
    } else if chars_eq_str(&n, "retrieve_chunk") {
        McpTool::RetrieveChunk
    } else {
        McpTool::Unknown
    }
}

/// The engines a search tool call's `mode` selects.
pub open spec fn spec_mode_engines(mode: Seq<char>) -> Set<crate::search::SearchEngine> {
    if mode == "local"@ {
        spec_from_flags(false, false, false, true, false)
    } else if mode == "text"@ {
        spec_from_flags(true, false, false, false, false)
    } else if mode == "graph"@ {
        spec_from_flags(false, true, false, false, false)
    } else if mode == "vector"@ {
        spec_from_flags(false, false, true, false, false)
    } else if mode == "filename"@ {
        spec_from_flags(false, false, false, false, true)
    } else {
        default_engines()
    }
}

// ─── Planning a tool call ────────────────────────────────────────────────────

/// What a tool call comes to, by its text: a refused request (a JSON-RPC
/// error with this message), a tool error with this text, or running a tool.
pub enum ToolPlan {
    Reject(Seq<char>),
    ToolError(Seq<char>),
    Run(McpTool),
}

/// What a tool call comes to: a refused request (a JSON-RPC error with this
/// message), a tool error with this text, or running a tool.
#[derive(Debug)]
pub enum ToolAction {
    Reject(String),
    ToolError(String),
    Run(McpTool),
}

impl View for ToolAction {
    type V = ToolPlan;

    open spec fn view(&self) -> ToolPlan {
        match self {
            ToolAction::Reject(m) => ToolPlan::Reject(m@),
            ToolAction::ToolError(m) => ToolPlan::ToolError(m@),
            ToolAction::Run(t) => ToolPlan::Run(*t),
        }
    }
}

/// The tool error for a knowledge base that is not configured.
pub open spec fn kb_not_found(kb: Seq<char>) -> Seq<char> {
    "KB '"@ + kb + "' not found"@
}

/// Whether a named knowledge base is missing from the configured names.
pub open spec fn kb_missing(kb: Option<Seq<char>>, kb_names: Seq<Seq<char>>) -> bool {
    kb matches Some(k) && !kb_names.contains(k)
}

/// What a tool call comes to, given its tool name (if any), whether it has
/// a `query` and a `chunk_id`, the knowledge base it names (if any) and the
/// configured knowledge bases: a call without a name, a search without a
/// query or a retrieval without a chunk id is refused; a search or a status
/// request for an unknown knowledge base, or an unknown tool, answers with a
/// tool error; anything else runs its tool.
pub open spec fn spec_plan_tool_call(
    name: Option<Seq<char>>,
    has_query: bool,
    has_chunk_id: bool,
    kb: Option<Seq<char>>,
    kb_names: Seq<Seq<char>>,
) -> ToolPlan {
    match name {
        None => ToolPlan::Reject("Missing tool name"@),
        Some(n) => match spec_tool(n) {
            McpTool::MemorySearch => if !has_query {
                ToolPlan::Reject("Missing query argument"@)
            } else if kb_missing(kb, kb_names) {
                ToolPlan::ToolError(kb_not_found(kb.unwrap()))
            } else {
                ToolPlan::Run(McpTool::MemorySearch)
            },
            McpTool::MemoryStatus => if kb_missing(kb, kb_names) {
                ToolPlan::ToolError(kb_not_found(kb.unwrap()))
            } else {
                ToolPlan::Run(McpTool::MemoryStatus)
            },
            McpTool::RetrieveChunk => if !has_chunk_id {
                ToolPlan::Reject("Missing chunk_id argument"@)
            } else {
                ToolPlan::Run(McpTool::RetrieveChunk)
            },
            McpTool::Unknown => ToolPlan::ToolError("Unknown tool: "@ + n),
            t => ToolPlan::Run(t),
        },
    }
}

/// Whether `kb` is one of the configured names.
fn has_kb(kb_names: &Vec<String>, kb: &str) -> (r: bool)
    ensures
        r == string_views(kb_names@).contains(kb@),
{
    let kc = to_chars(kb);
    let mut i: usize = 0;
    while i < kb_names.len()
        invariant
            i <= kb_names.len(),
            kc@ == kb@,
            forall|j: int| 0 <= j < i ==> #[trigger] string_views(kb_names@)[j] != kb@,
        decreases kb_names.len() - i,
    {
        let nc = to_chars(kb_names[i].as_str());
        if chars_eq(&nc, &kc) {
            assert(string_views(kb_names@)[i as int] == kb@);
            return true;
        }
        i = i + 1;
    }
    false
}

fn kb_not_found_text(kb: &str) -> (r: String)
    ensures
        r@ == kb_not_found(kb@),
{
    let mut v = to_chars("KB '");
    push_str(&mut v, kb);
    push_str(&mut v, "' not found");
    from_chars(&v)
}

/// Plans a tool call (see `spec_plan_tool_call`).
pub fn plan_tool_call(
    name: Option<&str>,
    has_query: bool,
    has_chunk_id: bool,
    kb: Option<&str>,
    kb_names: &Vec<String>,
) -> (r: ToolAction)
    ensures
        r@ == spec_plan_tool_call(
            match name {
                Some(n) => Some(n@),
                None => None,
            },
            has_query,
            has_chunk_id,
            match kb {
                Some(k) => Some(k@),
                None => None,
            },
            string_views(kb_names@),
        ),
{
    let n = match name {
        None => return ToolAction::Reject(string_of("Missing tool name")),
        Some(n) => n,
    };
    let missing = match kb {
        Some(k) => !has_kb(kb_names, k),
        None => false,
    };
    match tool_kind(n) {
        McpTool::MemorySearch => {
            if !has_query {
                ToolAction::Reject(string_of("Missing query argument"))
            } else if missing {
                ToolAction::ToolError(kb_not_found_text(kb.unwrap()))
            } else {
                ToolAction::Run(McpTool::MemorySearch)
            }
        },
        McpTool::MemoryStatus => {
            if missing {
                ToolAction::ToolError(kb_not_found_text(kb.unwrap()))
            } else {
                ToolAction::Run(McpTool::MemoryStatus)
            }
        },
        McpTool::RetrieveChunk => {
            if !has_chunk_id {
                ToolAction::Reject(string_of("Missing chunk_id argument"))
            } else {
                ToolAction::Run(McpTool::RetrieveChunk)
            }
        },
        McpTool::Unknown => {
            let mut v = to_chars("Unknown tool: ");
            push_str(&mut v, n);
            ToolAction::ToolError(from_chars(&v))
        },
        t => ToolAction::Run(t),
    }
}

/// The settings of a search tool call, its absent arguments filled in.
#[derive(Debug, Clone)]
pub struct SearchArgs {
    pub limit: usize,
    pub exact: bool,
    pub mode: SearchMode,
    pub include_content: bool,
    pub doc_score: bool,
    pub smart: bool,
}

/// Reads a search tool call's optional arguments: `limit` defaults to 5,
/// `mode` to "all" (the default engines), and every flag to false.
pub fn search_args(
    limit: Option<usize>,
    exact: Option<bool>,
    mode: Option<&str>,
    include_content: Option<bool>,
    doc_score: Option<bool>,
    smart: Option<bool>,
) -> (r: SearchArgs)
    ensures
        r.limit == (match limit {
            Some(l) => l,
            None => 5,
        }),
        r.exact == (exact == Some(true)),
        r.include_content == (include_content == Some(true)),
        r.doc_score == (doc_score == Some(true)),
        r.smart == (smart == Some(true)),
        r.mode.wf(),
        r.mode.engine_set() == (match mode {
            Some(m) => spec_mode_engines(m@),
            None => default_engines(),
        }),
{
    let m = match mode {
        Some(name) => mode_from_name(name),
        None => SearchMode::default_mode(),
    };
    SearchArgs {
        limit: match limit {
            Some(l) => l,
            None => 5,
        },
        exact: match exact {
            Some(b) => b,
            None => false,
        },
        mode: m,
        include_content: match include_content {
            Some(b) => b,
            None => false,
        },
        doc_score: match doc_score {
            Some(b) => b,
            None => false,
        },
        smart: match smart {
            Some(b) => b,
            None => false,
        },
    }
}

/// The text a smart search draws its queries from: the conversation
/// context, a blank line and the query when a context is given, else the
/// query alone.
pub fn smart_search_text(query: &str, context: Option<&str>) -> (r: String)
    ensures
        r@ == (match context {
            Some(c) => c@ + seq!['\n', '\n'] + query@,
            None => query@,
        }),
{
    match context {
        Some(c) => {
            let mut v = to_chars(c);
            v.push('\n');
            v.push('\n');
            push_str(&mut v, query);
            assert(v@ =~= c@ + seq!['\n', '\n'] + query@);
            from_chars(&v)
        },
        None => string_of(query),
    }
}

/// The search mode of a tool call's `mode` argument: one engine for
/// "local", "text", "graph", "vector" or "filename", the default mode for
/// anything else ("all").
pub fn mode_from_name(mode: &str) -> (r: SearchMode)
    ensures
        r.wf(),
        r.engine_set() == spec_mode_engines(mode@),
{
    let m = to_chars(mode);
    if chars_eq_str(&m, "local") {
        SearchMode::from_flags(false, false, false, true, false)
    } else if chars_eq_str(&m, "text") {
        SearchMode::from_flags(true, false, false, false, false)
    } else if chars_eq_str(&m, "graph") {
        SearchMode::from_flags(false, true, false, false, false)
    } else if chars_eq_str(&m, "vector") {
        SearchMode::from_flags(false, false, true, false, false)
    } else if chars_eq_str(&m, "filename") {
        SearchMode::from_flags(false, false, false, false, true)
    } else {
        SearchMode::default_mode()
    }
}

/// A result survives the exclusion list when it has no chunk id or its
/// chunk is not excluded.
pub fn not_excluded(chunk_id: Option<i64>, excluded: &Vec<i64>) -> (r: bool)
    ensures
        r == match chunk_id {
            Some(id) => !excluded@.contains(id),
            None => true,
        },
{
    match chunk_id {
        Some(id) => {
            let mut k: usize = 0;
            while k < excluded.len()
                invariant
                    k <= excluded.len(),
                    chunk_id == Some(id),
                    forall|j: int| 0 <= j < k ==> excluded@[j] != id,
                decreases excluded.len() - k,
            {
                if excluded[k] == id {
                    assert(excluded@[k as int] == id);
                    return false;
                }
                k = k + 1;
            }
            true
        },
        None => true,
    }
}

// ─── Tool answers ────────────────────────────────────────────────────────────

/// The status line of a knowledge base.
pub open spec fn spec_status_line(name: Seq<char>, count: i64, last_sync: Seq<char>) -> Seq<char> {
    name + ": "@ + (if count < 0 { seq!['-'] + decimal((-count) as nat) } else { decimal(count as nat) })
        + " documents, last sync: "@ + last_sync
}

fn push_i64(out: &mut Vec<char>, n: i64)
    ensures
        final(out)@ == old(out)@ + (if n < 0 { seq!['-'] + decimal((-n) as nat) } else { decimal(n as nat) }),
{
    if n < 0 {
        out.push('-');
        let m: u64 = if n == i64::MIN { 9223372036854775808u64 } else { (-n) as u64 };
        assert(m as int == -n);
        let dc = crate::init::decimal_chars_u64(m);
        append_chars(out, &dc);
    } else {
        let dc = crate::init::decimal_chars_u64(n as u64);
        append_chars(out, &dc);
    }
}

/// The status line of a knowledge base: `<name>: <count> documents, last
/// sync: <last_sync>`.
pub fn status_line(name: &str, count: i64, last_sync: &str) -> (r: String)
    ensures
        r@ == spec_status_line(name@, count, last_sync@),
{
    let mut out: Vec<char> = Vec::new();
    push_str(&mut out, name);
    push_str(&mut out, ": ");
    push_i64(&mut out, count);
    push_str(&mut out, " documents, last sync: ");
    push_str(&mut out, last_sync);
    from_chars(&out)
}

/// The first line of context before a chunk: `lines_before` lines up,
/// not before the first line.
pub open spec fn before_start(line_start: nat, lines_before: nat) -> int {
    if line_start >= lines_before {
        line_start - lines_before
    } else {
        0
    }
}

/// The end of the context after a chunk.
pub open spec fn after_end(line_end: nat, lines_after: nat, total: nat) -> int {
    if line_end + 1 + lines_after < total {
        (line_end + 1 + lines_after) as int
    } else {
        total as int
    }
}

fn owned_lines(lines: &[&str], lo: usize, hi: usize) -> (r: Vec<String>)
    requires
        lo <= hi <= lines@.len(),
    ensures
        string_views(r@) == str_views(lines@).subrange(lo as int, hi as int),
{
    let mut out: Vec<String> = Vec::new();
    let mut i = lo;
    while i < hi
        invariant
            lo <= i <= hi <= lines@.len(),
            string_views(out@) == str_views(lines@).subrange(lo as int, i as int),
        decreases hi - i,
    {
        let ghost before = out@;
        out.push(string_of(lines[i]));
        assert(string_views(out@) =~= string_views(before).push(lines@[i as int]@));
        assert(str_views(lines@).subrange(lo as int, i + 1) =~= str_views(lines@).subrange(lo as int, i as int).push(lines@[i as int]@));
        i = i + 1;
    }
    out
}

/// The document lines around a retrieved chunk: up to `lines_before` lines
/// ending at `line_start`, and up to `lines_after` lines from
/// `line_end + 1` (none when that is past the last line).
pub fn context_lines(
    doc_lines: &[&str],
    line_start: usize,
    line_end: usize,
    lines_before: usize,
    lines_after: usize,
) -> (r: (Vec<String>, Vec<String>))
    requires
        line_start <= doc_lines@.len(),
        line_end + 1 + lines_after <= usize::MAX,
    ensures
        string_views(r.0@) == str_views(doc_lines@).subrange(before_start(line_start as nat, lines_before as nat), line_start as int),
        string_views(r.1@) == if line_end + 1 < doc_lines@.len() {
            str_views(doc_lines@).subrange(line_end + 1, after_end(line_end as nat, lines_after as nat, doc_lines@.len()))
        } else {
            Seq::empty()
        },
{
    let total = doc_lines.len();
    let bs = if line_start >= lines_before { line_start - lines_before } else { 0 };
    let rb = owned_lines(doc_lines, bs, line_start);
    let ae = if line_end + 1 + lines_after < total { line_end + 1 + lines_after } else { total };
    let ra = if line_end + 1 < total {
        owned_lines(doc_lines, line_end + 1, ae)
    } else {
        let v: Vec<String> = Vec::new();
        assert(string_views(v@) =~= Seq::<Seq<char>>::empty());
        v
    };
    (rb, ra)
}

/// The `[prev]` entry of a chunk before the match.
pub open spec fn prev_entry(c: ChunkRow) -> Seq<char> {
    "[prev] lines "@ + decimal(c.line_start as nat) + "-"@ + decimal(c.line_end as nat) + ":\n"@ + c.content@ + "\n\n"@
}

/// The `[next]` entry of a chunk after the match.
pub open spec fn next_entry(c: ChunkRow) -> Seq<char> {
    "\n[next] lines "@ + decimal(c.line_start as nat) + "-"@ + decimal(c.line_end as nat) + ":\n"@ + c.content@ + "\n"@
}

/// The entries of the chunks, in order.
pub open spec fn entries(cs: Seq<ChunkRow>, next: bool) -> Seq<char>
    decreases cs.len(),
{
    if cs.len() == 0 {
        Seq::empty()
    } else {
        entries(cs.drop_last(), next) + if next { next_entry(cs.last()) } else { prev_entry(cs.last()) }
    }
}

/// The text the retrieval tool answers with.
pub open spec fn spec_retrieval_text(
    file_path: Seq<char>,
    line_start: nat,
    line_end: nat,
    chunk_type: Seq<char>,
    content: Seq<char>,
    before_chunks: Seq<ChunkRow>,
    raw_before: Seq<Seq<char>>,
    raw_after: Seq<Seq<char>>,
    after_chunks: Seq<ChunkRow>,
) -> Seq<char> {
    "─── "@ + file_path + ":"@ + decimal(line_start) + "-"@ + decimal(line_end) + " ("@ + chunk_type + ") ───\n"@
        + entries(before_chunks, false)
        + (if raw_before.len() > 0 { "[context before]:\n"@ + join_lines(raw_before) + "\n\n"@ } else { Seq::empty() })
        + "[match]:\n"@ + content + "\n"@
        + (if raw_after.len() > 0 { "\n[context after]:\n"@ + join_lines(raw_after) + "\n"@ } else { Seq::empty() })
        + entries(after_chunks, true)
}

fn push_entries(out: &mut Vec<char>, cs: &[ChunkRow], next: bool)
    ensures
        final(out)@ == old(out)@ + entries(cs@, next),
{
    let mut i: usize = 0;
    while i < cs.len()
        invariant
            i <= cs.len(),
            out@ == old(out)@ + entries(cs@.take(i as int), next),
        decreases cs.len() - i,
    {
        assert(cs@.take(i + 1).drop_last() == cs@.take(i as int));
        let c = &cs[i];
        let ghost before = out@;
        if next {
            push_str(out, "\n[next] lines ");
        } else {
            push_str(out, "[prev] lines ");
        }
        let a = decimal_string(c.line_start);
        push_str(out, a.as_str());
        push_str(out, "-");
        let b = decimal_string(c.line_end);
        push_str(out, b.as_str());
        push_str(out, ":\n");
        push_str(out, c.content.as_str());
        if next {
            push_str(out, "\n");
        } else {
            push_str(out, "\n\n");
        }
        assert(out@ =~= before + if next { next_entry(*c) } else { prev_entry(*c) });
        i = i + 1;
    }
    assert(cs@.take(cs.len() as int) == cs@);
}

fn joined_lines(v: &Vec<String>) -> (r: String)
    ensures
        r@ == join_lines(string_views(v@)),
{
    let nl = "\n";
    proof {
        reveal_strlit("\n");
    }
    let r = join_strings(v, nl);
    assert(nl@ == seq!['\n']);
    proof {
        lemma_join_with_nl(string_views(v@));
    }
    r
}

proof fn lemma_join_with_nl(ls: Seq<Seq<char>>)
    ensures
        join_with(ls, seq!['\n']) == join_lines(ls),
    decreases ls.len(),
{
    if ls.len() > 1 {
        lemma_join_with_nl(ls.drop_last());
    }
}

/// The retrieval tool's answer: a header with the file, lines and chunk
/// type; the chunks before (`[prev]`), the lines before (`[context
/// before]`), the chunk itself (`[match]`), the lines after (`[context
/// after]`) and the chunks after (`[next]`), each part only when there is
/// something in it.
pub fn format_retrieval(
    file_path: &str,
    line_start: usize,
    line_end: usize,
    chunk_type: &str,
    content: &str,
    before_chunks: &[ChunkRow],
    raw_before: &Vec<String>,
    raw_after: &Vec<String>,
    after_chunks: &[ChunkRow],
) -> (r: String)
    ensures
        r@ == spec_retrieval_text(
            file_path@,
            line_start as nat,
            line_end as nat,
            chunk_type@,
            content@,
            before_chunks@,
            string_views(raw_before@),
            string_views(raw_after@),
            after_chunks@,
        ),
{
    let mut out: Vec<char> = Vec::new();
    push_str(&mut out, "─── ");
    push_str(&mut out, file_path);
    push_str(&mut out, ":");
    let a = decimal_string(line_start);
    push_str(&mut out, a.as_str());
    push_str(&mut out, "-");
    let b = decimal_string(line_end);
    push_str(&mut out, b.as_str());
    push_str(&mut out, " (");
    push_str(&mut out, chunk_type);
    push_str(&mut out, ") ───\n");
    let ghost s1 = out@;
    push_entries(&mut out, before_chunks, false);
    let ghost s2 = out@;
    if raw_before.len() > 0 {
        push_str(&mut out, "[context before]:\n");
        let j = joined_lines(raw_before);
        push_str(&mut out, j.as_str());
        push_str(&mut out, "\n\n");
    }
    assert(out@ =~= s2 + (if string_views(raw_before@).len() > 0 { "[context before]:\n"@ + join_lines(string_views(raw_before@)) + "\n\n"@ } else { Seq::empty() }));
    let ghost s3 = out@;
    push_str(&mut out, "[match]:\n");
    push_str(&mut out, content);
    push_str(&mut out, "\n");
    let ghost s4 = out@;
    if raw_after.len() > 0 {
        push_str(&mut out, "\n[context after]:\n");
        let j = joined_lines(raw_after);
        push_str(&mut out, j.as_str());
        push_str(&mut out, "\n");
    }
    assert(out@ =~= s4 + (if string_views(raw_after@).len() > 0 { "\n[context after]:\n"@ + join_lines(string_views(raw_after@)) + "\n"@ } else { Seq::empty() }));
    let ghost s5 = out@;
    push_entries(&mut out, after_chunks, true);
    assert(out@ =~= spec_retrieval_text(
        file_path@,
        line_start as nat,
        line_end as nat,
        chunk_type@,
        content@,
        before_chunks@,
        string_views(raw_before@),
        string_views(raw_after@),
        after_chunks@,
    ));
    from_chars(&out)
}

} // verus!

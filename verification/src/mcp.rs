//! The tool surface: which requests there are, what each tool takes, and
//! what a call of a tool asks for.
//!
//! Requests arrive as JSON over a transport; the caller reads them and hands
//! over plain values. The answers go back the same way.

use vstd::prelude::*;

use crate::edit::{anchor_of, parse_anchor, Edit};
use crate::search::strip::is_word;
use crate::text::{
    decimal, push_decimal, push_str, string_of, str_eq, to_chars, truncate_chars, truncated,
};

verus! {

/// The protocol version that the server speaks.
pub const PROTOCOL_VERSION: &'static str = "2024-11-05";

/// The name of the server.
pub const SERVER_NAME: &'static str = "tilth";

/// The error code for a request that is no valid JSON.
pub const PARSE_ERROR: i32 = -32700;

/// The error code for a method that does not exist.
pub const METHOD_NOT_FOUND: i32 = -32601;

/// The error code for parameters that cannot be used.
pub const INVALID_PARAMS: i32 = -32602;

/// The methods of the protocol.
#[derive(Clone, Copy, Debug, PartialEq, Eq, Structural)]
pub enum Method {
    Initialize,
    ToolsList,
    ToolsCall,
    Ping,
    Unknown,
}

/// The method that a name stands for.
pub open spec fn method_of(name: Seq<char>) -> Method {
    if name == "initialize"@ {
        Method::Initialize
    } else if name == "tools/list"@ {
        Method::ToolsList
    } else if name == "tools/call"@ {
        Method::ToolsCall
    } else if name == "ping"@ {
        Method::Ping
    } else {
        Method::Unknown
    }
}

/// The method that a name stands for.
pub fn classify_method(name: &str) -> (m: Method)
    ensures
        m == method_of(name@),
{
    let n = to_chars(name);
    if is_word(&n, "initialize") {
        Method::Initialize
    } else if is_word(&n, "tools/list") {
        Method::ToolsList
    } else if is_word(&n, "tools/call") {
        Method::ToolsCall
    } else if is_word(&n, "ping") {
        Method::Ping
    } else {
        Method::Unknown
    }
}

/// What the server tells a client about its use when it only reads.
pub const SERVER_INSTRUCTIONS: &'static str =
    "tilth — code intelligence MCP server. Five tools: read, search, files, map, session.\n\nWorkflow: Start with tilth_map to orient, then tilth_search to find symbols/text, then tilth_read to view files. Always pass `context` (the file you're editing) to tilth_search — it boosts nearby results.\n\ntilth_read: Small files → full content. Large files → structural outline. Start with the outline, then use `section` to drill into specific line ranges.\n\ntilth_search: Symbol search (default) finds definitions first via tree-sitter AST, then usages. Use `kind: \"content\"` for strings/comments. Use `expand` to see full source of top matches.\n\ntilth_files: Glob search with token estimates. Use to find test files, configs, etc.\n\ntilth_session: Check what you've already read/searched to avoid redundant calls.";

/// What the server tells a client about its use when it also edits.
pub const EDIT_MODE_INSTRUCTIONS: &'static str =
    "tilth — code intelligence + edit MCP server. Six tools: read, edit, search, files, map, session.\n\nIMPORTANT: Always use tilth tools instead of host built-in tools for all file operations:\n- tilth_read instead of Read/cat\n- tilth_edit instead of Edit\n- tilth_search instead of Grep\n- tilth_files instead of Glob/find\n- tilth_map instead of ls/directory browsing\n\nThis is required — tilth_read output contains line:hash anchors that tilth_edit depends on. Using other read tools breaks the edit workflow.\n\nHASHLINE FORMAT:\ntilth_read returns each line as `line:hash|content`, for example:\n  42:a3f|  let x = compute();\n  43:f1b|  return x;\nThe part before the `|` is the anchor (`42:a3f`). The 3-char hex hash is a content checksum. Together, line number + hash uniquely identify each line.\n\nEDIT WORKFLOW:\n1. Read: use tilth_read to get hashlined content\n2. Edit: pass anchors from step 1 to tilth_edit\n   - Single line: {\"start\": \"42:a3f\", \"content\": \"new code\"}\n   - Range: {\"start\": \"42:a3f\", \"end\": \"45:b2c\", \"content\": \"replacement\"}\n   - Delete: {\"start\": \"42:a3f\", \"content\": \"\"}\n3. If hashes don't match (file changed), the edit is rejected and current content is returned — re-read and retry\n\nLARGE FILES: tilth_read returns an outline for large files (line ranges like [20-115], not hashlines). Use `section` to read the specific lines you need — that returns hashlined content you can edit.\n\ntilth_search: Symbol search (default) via tree-sitter AST. Use `kind: \"content\"` for strings. Always pass `context`.\n\ntilth_files: Glob search with token estimates.\n\ntilth_session: Check activity to avoid redundant calls.";

/// What a request is answered with.
#[derive(Debug)]
pub enum Reply {
    /// Nothing: the request was a notification.
    Nothing,
    /// The server's name, protocol and instructions.
    Initialized { edit_mode: bool },
    /// The list of tools.
    Tools { edit_mode: bool },
    /// What the called tool gives.
    ToolResult,
    /// An empty result.
    Pong,
    /// An error.
    Error { code: i32, message: String },
}

/// The message of the error for an unknown method.
pub open spec fn unknown_method_text(method: Seq<char>) -> Seq<char> {
    "method not found: "@ + method
}

/// Whether `reply` is the answer to a request of the method `method`:
/// nothing for a notification, which has no id; else by method.
pub open spec fn is_reply_to(reply: Reply, method: Seq<char>, has_id: bool, edit_mode: bool) -> bool {
    if !has_id {
        reply is Nothing
    } else {
        match method_of(method) {
            Method::Initialize => reply == (Reply::Initialized { edit_mode }),
            Method::ToolsList => reply == (Reply::Tools { edit_mode }),
            Method::ToolsCall => reply is ToolResult,
            Method::Ping => reply is Pong,
            Method::Unknown => reply matches Reply::Error { code, message } && code
                == METHOD_NOT_FOUND && message@ == unknown_method_text(method),
        }
    }
}

/// Decides how a request is answered.
pub fn handle_request(method: &str, has_id: bool, edit_mode: bool) -> (reply: Reply)
    ensures
        is_reply_to(reply, method@, has_id, edit_mode),
{
    if !has_id {
        return Reply::Nothing;
    }
    match classify_method(method) {
        Method::Initialize => Reply::Initialized { edit_mode },
        Method::ToolsList => Reply::Tools { edit_mode },
        Method::ToolsCall => Reply::ToolResult,
        Method::Ping => Reply::Pong,
        Method::Unknown => {
            let mut message = String::new();
            push_str(&mut message, "method not found: ");
            push_str(&mut message, method);
            Reply::Error { code: METHOD_NOT_FOUND, message }
        },
    }
}

/// The text of the error for a request that is no valid JSON.
pub fn parse_error_message(detail: &str) -> (message: String)
    ensures
        message@ == "parse error: "@ + detail@,
{
    let mut message = String::new();
    push_str(&mut message, "parse error: ");
    push_str(&mut message, detail);
    message
}

// ---------------------------------------------------------------------------
// Tool calls
// ---------------------------------------------------------------------------

/// One edit as it arrives: anchors as text.
#[derive(Debug)]
pub struct EditArg {
    pub start: Option<String>,
    pub end: Option<String>,
    pub content: Option<String>,
}

/// The arguments of a tool call, as far as they are present and of the
/// right type.
#[derive(Debug)]
pub struct ToolArgs {
    pub path: Option<String>,
    pub section: Option<String>,
    pub full: Option<bool>,
    pub budget: Option<u64>,
    pub query: Option<String>,
    pub scope: Option<String>,
    pub kind: Option<String>,
    pub expand: Option<u64>,
    pub context: Option<String>,
    pub pattern: Option<String>,
    pub depth: Option<u64>,
    pub action: Option<String>,
    pub edits: Option<Vec<EditArg>>,
}

/// The kinds of search.
#[derive(Clone, Copy, Debug, PartialEq, Eq, Structural)]
pub enum SearchKind {
    Symbol,
    Content,
    Regex,
}

/// What a tool call asks for.
pub enum ToolCall {
    Read { path: String, section: Option<String>, full: bool, budget: Option<u64> },
    Search {
        query: String,
        scope: String,
        kind: SearchKind,
        expand: usize,
        context: Option<String>,
        budget: Option<u64>,
    },
    Files { pattern: String, scope: String, budget: Option<u64> },
    DirMap { scope: String, depth: usize, budget: Option<u64> },
    Session { reset: bool },
    Edit { path: String, edits: Vec<Edit> },
}

/// The tools.
#[derive(Clone, Copy, Debug, PartialEq, Eq, Structural)]
pub enum Tool {
    Read,
    Search,
    Files,
    DirMap,
    Session,
    Edit,
}

/// The tool that a name stands for. The edit tool exists only in edit mode.
pub open spec fn tool_of(name: Seq<char>, edit_mode: bool) -> Option<Tool> {
    if name == "tilth_read"@ {
        Some(Tool::Read)
    } else if name == "tilth_search"@ {
        Some(Tool::Search)
    } else if name == "tilth_files"@ {
        Some(Tool::Files)
    } else if name == "tilth_map"@ {
        Some(Tool::DirMap)
    } else if name == "tilth_session"@ {
        Some(Tool::Session)
    } else if name == "tilth_edit"@ && edit_mode {
        Some(Tool::Edit)
    } else {
        None
    }
}

/// The tool that a name stands for.
pub fn classify_tool(name: &str, edit_mode: bool) -> (t: Option<Tool>)
    ensures
        t == tool_of(name@, edit_mode),
{
    let n = to_chars(name);
    if is_word(&n, "tilth_read") {
        Some(Tool::Read)
    } else if is_word(&n, "tilth_search") {
        Some(Tool::Search)
    } else if is_word(&n, "tilth_files") {
        Some(Tool::Files)
    } else if is_word(&n, "tilth_map") {
        Some(Tool::DirMap)
    } else if is_word(&n, "tilth_session") {
        Some(Tool::Session)
    } else if is_word(&n, "tilth_edit") && edit_mode {
        Some(Tool::Edit)
    } else {
        None
    }
}

/// The scope of a call: the one given, or the current directory.
pub open spec fn scope_of(args: ToolArgs) -> Seq<char> {
    match args.scope {
        Some(s) => s@,
        None => "."@,
    }
}

/// The scope of a call: the one given, or the current directory.
pub fn resolve_scope(args: &ToolArgs) -> (scope: String)
    ensures
        scope@ == scope_of(*args),
{
    match &args.scope {
        Some(s) => s.clone(),
        None => ".".to_owned(),
    }
}

/// The kind of search that a word stands for; a search without kind is a
/// symbol search.
pub open spec fn search_kind_of(kind: Option<String>) -> Option<SearchKind> {
    match kind {
        None => Some(SearchKind::Symbol),
        Some(k) => if k@ == "symbol"@ {
            Some(SearchKind::Symbol)
        } else if k@ == "content"@ {
            Some(SearchKind::Content)
        } else if k@ == "regex"@ {
            Some(SearchKind::Regex)
        } else {
            None
        },
    }
}

/// The message for a required parameter that is missing.
pub open spec fn missing_text(name: Seq<char>) -> Seq<char> {
    "missing required parameter: "@ + name
}

fn missing(name: &str) -> (message: String)
    ensures
        message@ == missing_text(name@),
{
    let mut message = String::new();
    push_str(&mut message, "missing required parameter: ");
    push_str(&mut message, name);
    message
}

/// A number of the wire as a count: the number itself, as far as the machine
/// can count.
pub open spec fn count_of(n: Option<u64>, default: usize) -> usize {
    match n {
        Some(v) => if v > usize::MAX {
            usize::MAX
        } else {
            v as usize
        },
        None => default,
    }
}

fn as_count(n: Option<u64>, default: usize) -> (r: usize)
    ensures
        r == count_of(n, default),
{
    match n {
        Some(v) => if v > usize::MAX as u64 {
            usize::MAX
        } else {
            v as usize
        },
        None => default,
    }
}

/// Whether `r` is what a call of the read tool with the arguments `args` asks
/// for: the path with section, `full` and budget as given, or the message
/// for a missing path.
pub open spec fn is_read_call(r: Result<ToolCall, String>, args: ToolArgs) -> bool {
    match args.path {
        None => r matches Err(e) && e@ == missing_text("path"@),
        Some(p) => r matches Ok(ToolCall::Read { path, section, full, budget }) && path == p
            && section == args.section && full == (args.full == Some(true)) && budget
            == args.budget,
    }
}

/// What a call of the read tool asks for.
pub fn tool_read(args: &ToolArgs) -> (r: Result<ToolCall, String>)
    ensures
        is_read_call(r, *args),
{
    match &args.path {
        None => Err(missing("path")),
        Some(p) => Ok(
            ToolCall::Read {
                path: p.clone(),
                section: crate::types::clone_opt_string(&args.section),
                full: match args.full {
                    Some(f) => f,
                    None => false,
                },
                budget: args.budget,
            },
        ),
    }
}

/// The message for a kind of search that does not exist.
pub open spec fn unknown_kind_text(kind: Seq<char>) -> Seq<char> {
    "unknown search kind: "@ + kind + ". Use: symbol, content, regex"@
}

/// Whether `r` is what a call of the search tool with the arguments `args`
/// asks for: the query with scope, kind, expansions, context and budget, each
/// as given or by its default; or the message for a missing query or an
/// unknown kind.
pub open spec fn is_search_call(r: Result<ToolCall, String>, args: ToolArgs) -> bool {
    match args.query {
        None => r matches Err(e) && e@ == missing_text("query"@),
        Some(q) => match search_kind_of(args.kind) {
            None => r matches Err(e) && e@ == unknown_kind_text(args.kind.unwrap()@),
            Some(k) => r matches Ok(
                ToolCall::Search { query, scope, kind, expand, context, budget },
            ) && query == q && scope@ == scope_of(args) && kind == k && expand == count_of(
                args.expand,
                0,
            ) && context == args.context && budget == args.budget,
        },
    }
}

/// What a call of the search tool asks for.
pub fn tool_search(args: &ToolArgs) -> (r: Result<ToolCall, String>)
    ensures
        is_search_call(r, *args),
{
    let query = match &args.query {
        None => {
            return Err(missing("query"));
        },
        Some(q) => q.clone(),
    };
    let kind = match &args.kind {
        None => SearchKind::Symbol,
        Some(k) => {
            let word = to_chars(k.as_str());
            if is_word(&word, "symbol") {
                SearchKind::Symbol
            } else if is_word(&word, "content") {
                SearchKind::Content
            } else if is_word(&word, "regex") {
                SearchKind::Regex
            } else {
                let mut message = String::new();
                push_str(&mut message, "unknown search kind: ");
                push_str(&mut message, k.as_str());
                push_str(&mut message, ". Use: symbol, content, regex");
                return Err(message);
            }
        },
    };
    Ok(
        ToolCall::Search {
            query,
            scope: resolve_scope(args),
            kind,
            expand: as_count(args.expand, 0),
            context: crate::types::clone_opt_string(&args.context),
            budget: args.budget,
        },
    )
}

/// Whether `r` is what a call of the files tool with the arguments `args`
/// asks for: the pattern with scope and budget, or the message for a missing
/// pattern.
pub open spec fn is_files_call(r: Result<ToolCall, String>, args: ToolArgs) -> bool {
    match args.pattern {
        None => r matches Err(e) && e@ == missing_text("pattern"@),
        Some(p) => r matches Ok(ToolCall::Files { pattern, scope, budget }) && pattern == p
            && scope@ == scope_of(args) && budget == args.budget,
    }
}

/// What a call of the files tool asks for.
pub fn tool_files(args: &ToolArgs) -> (r: Result<ToolCall, String>)
    ensures
        is_files_call(r, *args),
{
    match &args.pattern {
        None => Err(missing("pattern")),
        Some(p) => Ok(
            ToolCall::Files { pattern: p.clone(), scope: resolve_scope(args), budget: args.budget },
        ),
    }
}

/// The depth of a map without a depth of its own.
pub const DEFAULT_MAP_DEPTH: usize = 3;

/// Whether `r` is what a call of the map tool with the arguments `args` asks
/// for: scope and depth, each as given or by its default, and the budget.
pub open spec fn is_map_call(r: Result<ToolCall, String>, args: ToolArgs) -> bool {
    r matches Ok(ToolCall::DirMap { scope, depth, budget }) && scope@ == scope_of(args) && depth
        == count_of(args.depth, DEFAULT_MAP_DEPTH) && budget == args.budget
}

/// What a call of the map tool asks for.
pub fn tool_map(args: &ToolArgs) -> (r: Result<ToolCall, String>)
    ensures
        is_map_call(r, *args),
{
    Ok(
        ToolCall::DirMap {
            scope: resolve_scope(args),
            depth: as_count(args.depth, DEFAULT_MAP_DEPTH),
            budget: args.budget,
        },
    )
}

/// Whether `r` is what a call of the session tool with the arguments `args`
/// asks for: a reset for the action `reset`, a summary for any other or none.
pub open spec fn is_session_call(r: Result<ToolCall, String>, args: ToolArgs) -> bool {
    r matches Ok(ToolCall::Session { reset }) && reset == (args.action.is_some()
        && args.action.unwrap()@ == "reset"@)
}

/// What a call of the session tool asks for: a reset for the action `reset`,
/// a summary for any other or none.
pub fn tool_session(args: &ToolArgs) -> (r: Result<ToolCall, String>)
    ensures
        is_session_call(r, *args),
{
    let reset = match &args.action {
        Some(a) => str_eq(a.as_str(), "reset"),
        None => false,
    };
    Ok(ToolCall::Session { reset })
}

/// The beginning of every message about the `i`-th edit.
pub open spec fn edit_label(i: nat) -> Seq<char> {
    "edit["@ + decimal(i) + "]: "@
}

/// What is wrong with an edit as it arrived, if anything.
pub open spec fn edit_fault(arg: EditArg, i: nat) -> Option<Seq<char>> {
    match arg.start {
        None => Some(edit_label(i) + "missing 'start'"@),
        Some(s) => if anchor_of(s@).is_none() {
            Some(edit_label(i) + "invalid start anchor '"@ + s@ + "'"@)
        } else if arg.end.is_some() && anchor_of(arg.end.unwrap()@).is_none() {
            Some(edit_label(i) + "invalid end anchor '"@ + arg.end.unwrap()@ + "'"@)
        } else if arg.content.is_none() {
            Some(edit_label(i) + "missing 'content'"@)
        } else {
            None
        },
    }
}

/// Whether `e` is the edit that `arg` stands for: the start anchor, the end
/// anchor or the start anchor again where there is none, and the content.
pub open spec fn is_edit_of(e: Edit, arg: EditArg) -> bool {
    let start = anchor_of(arg.start.unwrap()@).unwrap();
    let end = match arg.end {
        Some(s) => anchor_of(s@).unwrap(),
        None => start,
    };
    e.start_line == start.0 && e.start_hash == start.1 && e.end_line == end.0 && e.end_hash
        == end.1 && e.content == arg.content.unwrap()
}

fn label(i: usize) -> (s: String)
    ensures
        s@ == edit_label(i as nat),
{
    let mut s = String::new();
    push_str(&mut s, "edit[");
    push_decimal(&mut s, i as u64);
    push_str(&mut s, "]: ");
    s
}

/// Reads the `i`-th edit of a call.
pub fn parse_edit(arg: &EditArg, i: usize) -> (r: Result<Edit, String>)
    ensures
        match edit_fault(*arg, i as nat) {
            Some(f) => r matches Err(e) && e@ == f,
            None => r matches Ok(e) && is_edit_of(e, *arg),
        },
{
    let start_text = match &arg.start {
        None => {
            let mut m = label(i);
            push_str(&mut m, "missing 'start'");
            return Err(m);
        },
        Some(s) => s,
    };
    let (start_line, start_hash) = match parse_anchor(start_text.as_str()) {
        None => {
            let mut m = label(i);
            push_str(&mut m, "invalid start anchor '");
            push_str(&mut m, start_text.as_str());
            push_str(&mut m, "'");
            return Err(m);
        },
        Some(a) => a,
    };
    let (end_line, end_hash) = match &arg.end {
        Some(end_text) => match parse_anchor(end_text.as_str()) {
            None => {
                let mut m = label(i);
                push_str(&mut m, "invalid end anchor '");
                push_str(&mut m, end_text.as_str());
                push_str(&mut m, "'");
                return Err(m);
            },
            Some(a) => a,
        },
        None => (start_line, start_hash),
    };
    let content = match &arg.content {
        None => {
            let mut m = label(i);
            push_str(&mut m, "missing 'content'");
            return Err(m);
        },
        Some(c) => c.clone(),
    };
    Ok(Edit { start_line, start_hash, end_line, end_hash, content })
}

/// The index of the first edit with a fault, or the number of edits.
pub open spec fn first_fault(edits: Seq<EditArg>, n: int) -> int
    decreases n,
{
    if n <= 0 {
        0
    } else if first_fault(edits, n - 1) < n - 1 {
        first_fault(edits, n - 1)
    } else if edit_fault(edits[n - 1], (n - 1) as nat).is_some() {
        n - 1
    } else {
        n
    }
}

/// Whether `r` is what a call of the edit tool with the arguments `args` asks
/// for: the path and the edits, or the message for the first fault found.
pub open spec fn is_edit_call(r: Result<ToolCall, String>, args: ToolArgs) -> bool {
    match args.path {
        None => r matches Err(e) && e@ == missing_text("path"@),
        Some(p) => match args.edits {
            None => r matches Err(e) && e@ == missing_text("edits"@),
            Some(list) => {
                let k = first_fault(list@, list@.len() as int);
                if k < list@.len() {
                    r matches Err(e) && Some(e@) == edit_fault(list@[k], k as nat)
                } else {
                    r matches Ok(ToolCall::Edit { path, edits }) && path == p && edits@.len()
                        == list@.len() && forall|i: int|
                        0 <= i < list@.len() ==> is_edit_of(#[trigger] edits@[i], list@[i])
                }
            },
        },
    }
}

/// What a call of the edit tool asks for: the path and the edits, or the
/// first fault found.
pub fn tool_edit(args: &ToolArgs) -> (r: Result<ToolCall, String>)
    ensures
        is_edit_call(r, *args),
{
    let path = match &args.path {
        None => {
            return Err(missing("path"));
        },
        Some(p) => p.clone(),
    };
    let list = match &args.edits {
        None => {
            return Err(missing("edits"));
        },
        Some(l) => l,
    };
    let mut edits: Vec<Edit> = Vec::new();
    let mut i: usize = 0;
    while i < list.len()
        invariant
            i <= list@.len(),
            args.path.is_some(),
            args.edits.is_some(),
            args.edits.unwrap() == *list,
            first_fault(list@, i as int) == i,
            edits@.len() == i,
            forall|j: int| 0 <= j < i ==> is_edit_of(#[trigger] edits@[j], list@[j]),
        decreases list@.len() - i,
    {
        match parse_edit(&list[i], i) {
            Ok(e) => {
                edits.push(e);
            },
            Err(m) => {
                proof {
                    assert(edit_fault(list@[i as int], i as nat).is_some());
                    lemma_first_fault_stays(list@, i as int, list@.len() as int);
                    assert(first_fault(list@, list@.len() as int) == i);
                    assert(Some(m@) == edit_fault(list@[i as int], i as nat));
                }
                return Err(m);
            },
        }
        i += 1;
    }
    Ok(ToolCall::Edit { path, edits })
}

/// Once a fault is found, it stays the first.
pub proof fn lemma_first_fault_stays(edits: Seq<EditArg>, k: int, n: int)
    requires
        0 <= k < n,
        first_fault(edits, k) == k,
        edit_fault(edits[k], k as nat).is_some(),
    ensures
        first_fault(edits, n) == k,
    decreases n - k,
{
    if n > k + 1 {
        lemma_first_fault_stays(edits, k, n - 1);
    }
}

/// The message for a tool that does not exist.
pub open spec fn unknown_tool_text(tool: Seq<char>) -> Seq<char> {
    "unknown tool: "@ + tool
}

/// Whether `r` is what a call of the tool `tool` with the arguments `args`
/// asks for: what the tool of that name makes of the arguments, or the
/// message for a tool that does not exist.
pub open spec fn is_dispatched(
    r: Result<ToolCall, String>,
    tool: Seq<char>,
    args: ToolArgs,
    edit_mode: bool,
) -> bool {
    match tool_of(tool, edit_mode) {
        None => r matches Err(e) && e@ == unknown_tool_text(tool),
        Some(Tool::Read) => is_read_call(r, args),
        Some(Tool::Search) => is_search_call(r, args),
        Some(Tool::Files) => is_files_call(r, args),
        Some(Tool::DirMap) => is_map_call(r, args),
        Some(Tool::Session) => is_session_call(r, args),
        Some(Tool::Edit) => is_edit_call(r, args),
    }
}

/// Decides what a call of the tool `tool` asks for.
pub fn dispatch_tool(tool: &str, args: &ToolArgs, edit_mode: bool) -> (r: Result<ToolCall, String>)
    ensures
        is_dispatched(r, tool@, *args, edit_mode),
{
    match classify_tool(tool, edit_mode) {
        Some(Tool::Read) => tool_read(args),
        Some(Tool::Search) => tool_search(args),
        Some(Tool::Files) => tool_files(args),
        Some(Tool::DirMap) => tool_map(args),
        Some(Tool::Session) => tool_session(args),
        Some(Tool::Edit) => tool_edit(args),
        None => {
            let mut message = String::new();
            push_str(&mut message, "unknown tool: ");
            push_str(&mut message, tool);
            Err(message)
        },
    }
}

/// The answer to a tool call: a text, and whether it reports an error.
#[derive(Debug)]
pub struct ToolResponse {
    pub text: String,
    pub is_error: bool,
}

/// Wraps what a tool gave into the answer to its call: both output and error
/// are texts for the client to read; an error is marked as one.
pub fn handle_tool_call(result: Result<String, String>) -> (response: ToolResponse)
    ensures
        match result {
            Ok(output) => response.text == output && !response.is_error,
            Err(e) => response.text == e && response.is_error,
        },
{
    match result {
        Ok(output) => ToolResponse { text: output, is_error: false },
        Err(e) => ToolResponse { text: e, is_error: true },
    }
}

// ---------------------------------------------------------------------------
// Budget
// ---------------------------------------------------------------------------

/// The note that ends an output that was cut to its budget.
pub open spec fn budget_note(budget: u64) -> Seq<char> {
    "\n\n... truncated to "@ + decimal(budget as nat) + " tokens"@
}

/// The number of bytes that a budget of tokens allows: four per token, as
/// far as the machine can count.
pub open spec fn budget_bytes(budget: u64) -> nat {
    if budget as nat * 4 > usize::MAX {
        usize::MAX as nat
    } else {
        budget as nat * 4
    }
}

/// An output under a budget: unchanged if there is no budget or the output
/// fits; else cut at a character boundary, with a note.
pub open spec fn budgeted(output: Seq<char>, budget: Option<u64>) -> Seq<char> {
    match budget {
        None => output,
        Some(b) => if crate::text::byte_len(output) <= budget_bytes(b) {
            output
        } else {
            truncated(output, budget_bytes(b)) + budget_note(b)
        },
    }
}

/// Cuts an output to its token budget, if it has one.
pub fn apply_budget(output: String, budget: Option<u64>) -> (r: String)
    ensures
        r@ == budgeted(output@, budget),
{
    let b = match budget {
        None => {
            return output;
        },
        Some(b) => b,
    };
    let chars = to_chars(output.as_str());
    let max: u128 = b as u128 * 4;
    let limit: usize = if max > usize::MAX as u128 {
        usize::MAX
    } else {
        max as usize
    };
    assert(limit == budget_bytes(b));
    let cut = truncate_chars(&chars, limit);
    proof {
        crate::text::lemma_truncated_all_iff(chars@, limit as nat);
    }
    if cut.len() == chars.len() {
        return output;
    }
    let mut out = string_of(&cut);
    push_str(&mut out, "\n\n... truncated to ");
    push_decimal(&mut out, b);
    push_str(&mut out, " tokens");
    assert(out@ =~= truncated(output@, budget_bytes(b)) + budget_note(b));
    out
}

// ---------------------------------------------------------------------------
// Tool definitions
// ---------------------------------------------------------------------------

/// One parameter of a tool.
#[derive(Debug)]
pub struct ToolParam {
    pub name: &'static str,
    /// The JSON type of the parameter.
    pub kind: &'static str,
    pub description: &'static str,
    /// The default, as JSON text, if there is one.
    pub default_value: Option<&'static str>,
    /// The values that the parameter may take, if they are listed.
    pub choices: Vec<&'static str>,
    /// For an array of objects, the parameters of each object.
    pub items: Vec<ToolParam>,
    /// For an array of objects, the parameters that each object must have.
    pub items_required: Vec<&'static str>,
}

/// A tool as it is announced to clients.
#[derive(Debug)]
pub struct ToolDefinition {
    pub name: &'static str,
    pub description: &'static str,
    /// The names of the parameters that a call must have.
    pub required: Vec<&'static str>,
    pub params: Vec<ToolParam>,
}

fn param(name: &'static str, kind: &'static str, description: &'static str) -> (p: ToolParam)
    ensures
        shape_of(p) == plain(name@, kind@),
        p.description@ == description@,
        p.items@.len() == 0,
        p.items_required@.len() == 0,
{
    assert(words(Seq::<&'static str>::empty()) =~= Seq::<Seq<char>>::empty());
    ToolParam {
        name,
        kind,
        description,
        default_value: None,
        choices: Vec::new(),
        items: Vec::new(),
        items_required: Vec::new(),
    }
}

fn param_with_default(
    name: &'static str,
    kind: &'static str,
    default_value: &'static str,
    description: &'static str,
) -> (p: ToolParam)
    ensures
        shape_of(p) == with_default(name@, kind@, default_value@),
        p.description@ == description@,
        p.choices@.len() == 0,
        p.items@.len() == 0,
{
    assert(words(Seq::<&'static str>::empty()) =~= Seq::<Seq<char>>::empty());
    ToolParam {
        name,
        kind,
        description,
        default_value: Some(default_value),
        choices: Vec::new(),
        items: Vec::new(),
        items_required: Vec::new(),
    }
}

fn budget_param() -> (p: ToolParam)
    ensures
        shape_of(p) == plain("budget"@, "number"@),
{
    param("budget", "number", "Max tokens in response.")
}

/// What a definition announces of one parameter: its name, its JSON type,
/// its default as JSON text, and the values it may take where they are
/// listed.
pub struct ParamShape {
    pub name: Seq<char>,
    pub kind: Seq<char>,
    pub default_value: Option<Seq<char>>,
    pub choices: Seq<Seq<char>>,
}

/// A parameter without default and without listed values.
pub open spec fn plain(name: Seq<char>, kind: Seq<char>) -> ParamShape {
    ParamShape { name, kind, default_value: None, choices: Seq::empty() }
}

/// A parameter with a default, without listed values.
pub open spec fn with_default(name: Seq<char>, kind: Seq<char>, default_value: Seq<char>) -> ParamShape {
    ParamShape { name, kind, default_value: Some(default_value), choices: Seq::empty() }
}

/// A parameter with a default that takes one of the listed values.
pub open spec fn one_of(
    name: Seq<char>,
    kind: Seq<char>,
    default_value: Seq<char>,
    choices: Seq<Seq<char>>,
) -> ParamShape {
    ParamShape { name, kind, default_value: Some(default_value), choices }
}

/// The texts of a list of words.
pub open spec fn words(list: Seq<&'static str>) -> Seq<Seq<char>> {
    Seq::new(list.len(), |i: int| list[i]@)
}

/// What a definition announces of a parameter.
pub open spec fn shape_of(p: ToolParam) -> ParamShape {
    ParamShape {
        name: p.name@,
        kind: p.kind@,
        default_value: match p.default_value {
            Some(d) => Some(d@),
            None => None,
        },
        choices: words(p.choices@),
    }
}

/// What a definition announces of its first `n` parameters.
pub open spec fn param_shapes(params: Seq<ToolParam>, n: int) -> Seq<ParamShape>
    decreases n,
{
    if n <= 0 {
        Seq::empty()
    } else {
        param_shapes(params, n - 1).push(shape_of(params[n - 1]))
    }
}

/// Whether a definition announces the tool `name` with the required
/// parameters `required` and the parameters `params`, in that order.
pub open spec fn announces(
    tool: ToolDefinition,
    name: Seq<char>,
    required: Seq<Seq<char>>,
    params: Seq<ParamShape>,
) -> bool {
    tool.name@ == name && words(tool.required@) == required && param_shapes(
        tool.params@,
        tool.params@.len() as int,
    ) == params
}

/// What the read tool announces of its parameters.
pub open spec fn read_params() -> Seq<ParamShape> {
    seq![
        plain("path"@, "string"@),
        plain("section"@, "string"@),
        with_default("full"@, "boolean"@, "false"@),
        plain("budget"@, "number"@),
    ]
}

/// What the search tool announces of its parameters.
pub open spec fn search_params() -> Seq<ParamShape> {
    seq![
        plain("query"@, "string"@),
        plain("scope"@, "string"@),
        one_of("kind"@, "string"@, "\"symbol\""@, seq!["symbol"@, "content"@, "regex"@]),
        with_default("expand"@, "number"@, "0"@),
        plain("context"@, "string"@),
        plain("budget"@, "number"@),
    ]
}

/// What the map tool announces of its parameters.
pub open spec fn map_params() -> Seq<ParamShape> {
    seq![
        plain("scope"@, "string"@),
        with_default("depth"@, "number"@, "3"@),
        plain("budget"@, "number"@),
    ]
}

/// What the files tool announces of its parameters.
pub open spec fn files_params() -> Seq<ParamShape> {
    seq![plain("pattern"@, "string"@), plain("scope"@, "string"@), plain("budget"@, "number"@)]
}

/// What the session tool announces of its parameter.
pub open spec fn session_params() -> Seq<ParamShape> {
    seq![one_of("action"@, "string"@, "\"summary\""@, seq!["summary"@, "reset"@])]
}

/// What the edit tool announces of its parameters.
pub open spec fn edit_params() -> Seq<ParamShape> {
    seq![plain("path"@, "string"@), plain("edits"@, "array"@)]
}

/// What the edit tool announces of each edit: its fields, of which `start`
/// and `content` are required.
pub open spec fn edit_fields() -> Seq<ParamShape> {
    seq![plain("start"@, "string"@), plain("end"@, "string"@), plain("content"@, "string"@)]
}

fn read_tool(edit_mode: bool) -> (t: ToolDefinition)
    ensures
        announces(t, "tilth_read"@, seq!["path"@], read_params()),
{
    let description = if edit_mode {
        "Read a file with smart outlining. Output uses hashline format (line:hash|content) — the line:hash anchors are required by tilth_edit. Small files return full hashlined content. Large files return a structural outline (no hashlines); use `section` to get hashlined content for the lines you want to edit. Use `full` to force complete content."
    } else {
        "Read a file with smart outlining. Small files return full content. Large files return a structural outline (functions, classes, imports). Use `section` to read specific line ranges. Use `full` to force complete content."
    };
    let mut required: Vec<&'static str> = Vec::new();
    required.push("path");
    let mut params: Vec<ToolParam> = Vec::new();
    params.push(param("path", "string", "Absolute or relative file path to read."));
    params.push(param("section", "string", "Line range e.g. '45-89'. Bypasses smart view."));
    params.push(
        param_with_default(
            "full",
            "boolean",
            "false",
            "Force full content output, bypass smart outlining.",
        ),
    );
    params.push(budget_param());
    let t = ToolDefinition { name: "tilth_read", description, required, params };
    proof {
        reveal_with_fuel(param_shapes, 5);
        assert(words(t.required@) =~= seq!["path"@]);
        assert(param_shapes(t.params@, 4) =~= read_params());
    }
    t
}

fn search_tool() -> (t: ToolDefinition)
    ensures
        announces(t, "tilth_search"@, seq!["query"@], search_params()),
{
    let mut required: Vec<&'static str> = Vec::new();
    required.push("query");
    let mut kind = param_with_default(
        "kind",
        "string",
        "\"symbol\"",
        "Search type. symbol: structural definitions + usages. content: literal text. regex: regex pattern.",
    );
    kind.choices.push("symbol");
    kind.choices.push("content");
    kind.choices.push("regex");
    assert(words(kind.choices@) =~= seq!["symbol"@, "content"@, "regex"@]);
    let mut params: Vec<ToolParam> = Vec::new();
    params.push(
        param("query", "string", "Symbol name, text string, or regex pattern to search for."),
    );
    params.push(
        param("scope", "string", "Directory to search within. Default: current directory."),
    );
    params.push(kind);
    params.push(
        param_with_default(
            "expand",
            "number",
            "0",
            "Number of top matches to expand with full source code. Definitions show the full function/class body. Usages show ±10 context lines.",
        ),
    );
    params.push(
        param(
            "context",
            "string",
            "Path to the file the agent is currently editing. Boosts ranking of matches in the same directory or package.",
        ),
    );
    params.push(budget_param());
    let t = ToolDefinition {
        name: "tilth_search",
        description: "Search for symbols, text, or regex patterns in code. Symbol search returns definitions first (via tree-sitter AST), then usages, with structural outline context. Content search finds literal text. Regex search supports full regex patterns.",
        required,
        params,
    };
    proof {
        reveal_with_fuel(param_shapes, 7);
        assert(words(t.required@) =~= seq!["query"@]);
        assert(param_shapes(t.params@, 6) =~= search_params());
    }
    t
}

fn map_tool() -> (t: ToolDefinition)
    ensures
        announces(t, "tilth_map"@, Seq::empty(), map_params()),
{
    let mut params: Vec<ToolParam> = Vec::new();
    params.push(param("scope", "string", "Root directory to map. Default: current directory."));
    params.push(
        param_with_default("depth", "number", "3", "Maximum directory depth to traverse."),
    );
    params.push(budget_param());
    let t = ToolDefinition {
        name: "tilth_map",
        description: "Generate a structural codebase map. Code files show exported symbol names. Non-code files show token estimates. Replaces multi-call directory exploration with one call.",
        required: Vec::new(),
        params,
    };
    proof {
        reveal_with_fuel(param_shapes, 4);
        assert(words(t.required@) =~= Seq::<Seq<char>>::empty());
        assert(param_shapes(t.params@, 3) =~= map_params());
    }
    t
}

fn files_tool() -> (t: ToolDefinition)
    ensures
        announces(t, "tilth_files"@, seq!["pattern"@], files_params()),
{
    let mut required: Vec<&'static str> = Vec::new();
    required.push("pattern");
    let mut params: Vec<ToolParam> = Vec::new();
    params.push(
        param("pattern", "string", "Glob pattern e.g. '*.rs', 'src/**/*.ts', '*.test.*'"),
    );
    params.push(
        param("scope", "string", "Directory to search within. Default: current directory."),
    );
    params.push(budget_param());
    let t = ToolDefinition {
        name: "tilth_files",
        description: "Find files matching a glob pattern. Returns matched file paths with token estimates. Respects .gitignore.",
        required,
        params,
    };
    proof {
        reveal_with_fuel(param_shapes, 4);
        assert(words(t.required@) =~= seq!["pattern"@]);
        assert(param_shapes(t.params@, 3) =~= files_params());
    }
    t
}

fn session_tool() -> (t: ToolDefinition)
    ensures
        announces(t, "tilth_session"@, Seq::empty(), session_params()),
{
    let mut action = param_with_default(
        "action",
        "string",
        "\"summary\"",
        "summary: show activity stats. reset: clear all counters.",
    );
    action.choices.push("summary");
    action.choices.push("reset");
    assert(words(action.choices@) =~= seq!["summary"@, "reset"@]);
    let mut params: Vec<ToolParam> = Vec::new();
    params.push(action);
    let t = ToolDefinition {
        name: "tilth_session",
        description: "View or reset session activity summary. Shows files read, searches performed, top symbols, and hot paths. Use action='reset' to clear.",
        required: Vec::new(),
        params,
    };
    proof {
        reveal_with_fuel(param_shapes, 2);
        assert(words(t.required@) =~= Seq::<Seq<char>>::empty());
        assert(param_shapes(t.params@, 1) =~= session_params());
    }
    t
}

fn edit_tool() -> (t: ToolDefinition)
    ensures
        announces(t, "tilth_edit"@, seq!["path"@, "edits"@], edit_params()),
        param_shapes(t.params@[1].items@, 3) == edit_fields(),
        t.params@[1].items@.len() == 3,
        words(t.params@[1].items_required@) == seq!["start"@, "content"@],
{
    let mut required: Vec<&'static str> = Vec::new();
    required.push("path");
    required.push("edits");
    let mut edits = param("edits", "array", "Array of edit operations, applied atomically.");
    edits.items.push(
        param(
            "start",
            "string",
            "Start anchor: 'line:hash' (e.g. '42:a3f'). Hash from tilth_read hashline output.",
        ),
    );
    edits.items.push(
        param(
            "end",
            "string",
            "End anchor: 'line:hash'. If omitted, replaces only the start line.",
        ),
    );
    edits.items.push(
        param(
            "content",
            "string",
            "Replacement text (can be multi-line). Empty string to delete the line(s).",
        ),
    );
    edits.items_required.push("start");
    edits.items_required.push("content");
    assert(words(edits.items_required@) =~= seq!["start"@, "content"@]);
    let mut params: Vec<ToolParam> = Vec::new();
    params.push(param("path", "string", "Absolute or relative file path to edit."));
    params.push(edits);
    let t = ToolDefinition {
        name: "tilth_edit",
        description: "Apply edits to a file using hashline anchors from tilth_read. Each edit targets a line range by line:hash anchors. Edits are verified against content hashes and rejected if the file has changed since the last read.",
        required,
        params,
    };
    proof {
        reveal_with_fuel(param_shapes, 4);
        assert(words(t.required@) =~= seq!["path"@, "edits"@]);
        assert(words(t.params@[1].choices@) =~= Seq::<Seq<char>>::empty());
        assert(param_shapes(t.params@, 2) =~= edit_params());
        assert(param_shapes(t.params@[1].items@, 3) =~= edit_fields());
        assert(words(t.params@[1].items_required@) =~= seq!["start"@, "content"@]);
    }
    t
}

/// The tools that the server announces: read, search, map, files and
/// session, and the edit tool in edit mode, each with its parameters.
pub fn tool_definitions(edit_mode: bool) -> (tools: Vec<ToolDefinition>)
    ensures
        tools@.len() == if edit_mode {
            6int
        } else {
            5int
        },
        announces(tools@[0], "tilth_read"@, seq!["path"@], read_params()),
        announces(tools@[1], "tilth_search"@, seq!["query"@], search_params()),
        announces(tools@[2], "tilth_map"@, Seq::empty(), map_params()),
        announces(tools@[3], "tilth_files"@, seq!["pattern"@], files_params()),
        announces(tools@[4], "tilth_session"@, Seq::empty(), session_params()),
        edit_mode ==> announces(tools@[5], "tilth_edit"@, seq!["path"@, "edits"@], edit_params())
            && param_shapes(tools@[5].params@[1].items@, 3) == edit_fields()
            && tools@[5].params@[1].items@.len() == 3 && words(
            tools@[5].params@[1].items_required@,
        ) == seq!["start"@, "content"@],
{
    let mut tools: Vec<ToolDefinition> = Vec::new();
    tools.push(read_tool(edit_mode));
    tools.push(search_tool());
    tools.push(map_tool());
    tools.push(files_tool());
    tools.push(session_tool());
    if edit_mode {
        tools.push(edit_tool());
    }
    tools
}

} // verus!

use tilth::edit::line_hash;
use tilth::mcp::{
    apply_budget, classify_method, classify_tool, dispatch_tool, EDIT_MODE_INSTRUCTIONS,
    handle_request, handle_tool_call, parse_edit, parse_error_message, resolve_scope,
    SERVER_INSTRUCTIONS, tool_definitions, tool_edit, tool_files, tool_map, tool_read,
    tool_search, tool_session, EditArg, Method, Reply, SearchKind, Tool, ToolArgs, ToolCall,
    METHOD_NOT_FOUND, PARSE_ERROR, PROTOCOL_VERSION, SERVER_NAME,
};

fn args() -> ToolArgs {
    ToolArgs {
        path: None,
        section: None,
        full: None,
        budget: None,
        query: None,
        scope: None,
        kind: None,
        expand: None,
        context: None,
        pattern: None,
        depth: None,
        action: None,
        edits: None,
    }
}

fn s(text: &str) -> Option<String> {
    Some(text.to_string())
}

#[test]
fn methods_and_replies() {
    assert_eq!(classify_method("initialize"), Method::Initialize);
    assert_eq!(classify_method("tools/list"), Method::ToolsList);
    assert_eq!(classify_method("tools/call"), Method::ToolsCall);
    assert_eq!(classify_method("ping"), Method::Ping);
    assert_eq!(classify_method("Ping"), Method::Unknown);
    assert!(matches!(handle_request("initialize", true, false), Reply::Initialized { edit_mode: false }));
    assert!(matches!(handle_request("tools/list", true, true), Reply::Tools { edit_mode: true }));
    assert!(matches!(handle_request("tools/call", true, false), Reply::ToolResult));
    assert!(matches!(handle_request("ping", true, false), Reply::Pong));
    // Notifications have no id and get no answer.
    assert!(matches!(handle_request("ping", false, false), Reply::Nothing));
    assert!(matches!(handle_request("nonsense", false, false), Reply::Nothing));
    match handle_request("resources/list", true, false) {
        Reply::Error { code, message } => {
            assert_eq!(code, -32601);
            assert_eq!(code, METHOD_NOT_FOUND);
            assert_eq!(message, "method not found: resources/list");
        }
        other => panic!("unexpected: {other:?}"),
    }
    assert_eq!(PARSE_ERROR, -32700);
    assert_eq!(parse_error_message("eof"), "parse error: eof");
    assert_eq!(PROTOCOL_VERSION, "2024-11-05");
    assert_eq!(SERVER_NAME, "tilth");
    assert!(SERVER_INSTRUCTIONS.starts_with("tilth — code intelligence MCP server. Five tools"));
    assert!(EDIT_MODE_INSTRUCTIONS.contains("HASHLINE FORMAT"));
}

#[test]
fn tools_by_name() {
    assert_eq!(classify_tool("tilth_read", false), Some(Tool::Read));
    assert_eq!(classify_tool("tilth_map", false), Some(Tool::DirMap));
    assert_eq!(classify_tool("tilth_edit", false), None);
    assert_eq!(classify_tool("tilth_edit", true), Some(Tool::Edit));
    assert_eq!(classify_tool("read", true), None);
    match dispatch_tool("tilth_write", &args(), true) {
        Err(e) => assert_eq!(e, "unknown tool: tilth_write"),
        Ok(_) => panic!("expected an error"),
    }
    match dispatch_tool("tilth_edit", &args(), false) {
        Err(e) => assert_eq!(e, "unknown tool: tilth_edit"),
        Ok(_) => panic!("expected an error"),
    }
    assert!(matches!(dispatch_tool("tilth_session", &args(), false), Ok(ToolCall::Session { reset: false })));
    assert!(matches!(dispatch_tool("tilth_map", &args(), false), Ok(ToolCall::DirMap { .. })));
}

#[test]
fn read_call() {
    match tool_read(&args()) {
        Err(e) => assert_eq!(e, "missing required parameter: path"),
        Ok(_) => panic!("expected an error"),
    }
    let mut a = args();
    a.path = s("src/a.rs");
    a.section = s("1-9");
    a.budget = Some(100);
    match tool_read(&a) {
        Ok(ToolCall::Read { path, section, full, budget }) => {
            assert_eq!(path, "src/a.rs");
            assert_eq!(section, s("1-9"));
            assert!(!full);
            assert_eq!(budget, Some(100));
        }
        _ => panic!("expected a read"),
    }
    a.full = Some(true);
    assert!(matches!(tool_read(&a), Ok(ToolCall::Read { full: true, .. })));
}

#[test]
fn search_call() {
    match tool_search(&args()) {
        Err(e) => assert_eq!(e, "missing required parameter: query"),
        Ok(_) => panic!("expected an error"),
    }
    let mut a = args();
    a.query = s("walk");
    match tool_search(&a) {
        Ok(ToolCall::Search { query, scope, kind, expand, context, budget }) => {
            assert_eq!(query, "walk");
            assert_eq!(scope, ".");
            assert_eq!(kind, SearchKind::Symbol);
            assert_eq!(expand, 0);
            assert_eq!(context, None);
            assert_eq!(budget, None);
        }
        _ => panic!("expected a search"),
    }
    a.kind = s("regex");
    a.scope = s("./src");
    a.expand = Some(3);
    a.context = s("src/main.rs");
    match tool_search(&a) {
        Ok(ToolCall::Search { scope, kind, expand, context, .. }) => {
            assert_eq!(scope, "./src");
            assert_eq!(kind, SearchKind::Regex);
            assert_eq!(expand, 3);
            assert_eq!(context, s("src/main.rs"));
        }
        _ => panic!("expected a search"),
    }
    a.kind = s("content");
    assert!(matches!(tool_search(&a), Ok(ToolCall::Search { kind: SearchKind::Content, .. })));
    a.kind = s("fuzzy");
    match tool_search(&a) {
        Err(e) => assert_eq!(e, "unknown search kind: fuzzy. Use: symbol, content, regex"),
        Ok(_) => panic!("expected an error"),
    }
}

#[test]
fn files_map_and_session_calls() {
    match tool_files(&args()) {
        Err(e) => assert_eq!(e, "missing required parameter: pattern"),
        Ok(_) => panic!("expected an error"),
    }
    let mut a = args();
    a.pattern = s("*.rs");
    match tool_files(&a) {
        Ok(ToolCall::Files { pattern, scope, budget }) => {
            assert_eq!((pattern.as_str(), scope.as_str(), budget), ("*.rs", ".", None));
        }
        _ => panic!("expected files"),
    }
    match tool_map(&args()) {
        Ok(ToolCall::DirMap { scope, depth, budget }) => {
            assert_eq!((scope.as_str(), depth, budget), (".", 3, None));
        }
        _ => panic!("expected a map"),
    }
    a.depth = Some(7);
    a.scope = s("lib");
    assert!(matches!(tool_map(&a), Ok(ToolCall::DirMap { depth: 7, .. })));
    assert_eq!(resolve_scope(&a), "lib");
    assert_eq!(resolve_scope(&args()), ".");
    a.action = s("reset");
    assert!(matches!(tool_session(&a), Ok(ToolCall::Session { reset: true })));
    a.action = s("summary");
    assert!(matches!(tool_session(&a), Ok(ToolCall::Session { reset: false })));
    a.action = s("anything");
    assert!(matches!(tool_session(&a), Ok(ToolCall::Session { reset: false })));
}

#[test]
fn edit_call() {
    let anchor = format!("42:{:03x}", line_hash("x"));
    let other = format!("44:{:03x}", line_hash("y"));
    let ok = EditArg { start: Some(anchor.clone()), end: None, content: s("x = 1") };
    let e = parse_edit(&ok, 0).unwrap();
    assert_eq!((e.start_line, e.end_line), (42, 42));
    assert_eq!((e.start_hash, e.end_hash), (line_hash("x"), line_hash("x")));
    assert_eq!(e.content, "x = 1");
    let range = EditArg { start: Some(anchor.clone()), end: Some(other), content: s("") };
    let e = parse_edit(&range, 1).unwrap();
    assert_eq!((e.start_line, e.end_line, e.end_hash), (42, 44, line_hash("y")));
    let cases = [
        (EditArg { start: None, end: None, content: s("c") }, "edit[3]: missing 'start'"),
        (EditArg { start: s("4x"), end: None, content: s("c") }, "edit[3]: invalid start anchor '4x'"),
        (
            EditArg { start: Some(anchor.clone()), end: s("9:zz"), content: s("c") },
            "edit[3]: invalid end anchor '9:zz'",
        ),
        (EditArg { start: Some(anchor.clone()), end: None, content: None }, "edit[3]: missing 'content'"),
    ];
    for (arg, want) in cases {
        match parse_edit(&arg, 3) {
            Err(e) => assert_eq!(e, want),
            Ok(_) => panic!("expected an error"),
        }
    }
    let mut a = args();
    match tool_edit(&a) {
        Err(e) => assert_eq!(e, "missing required parameter: path"),
        Ok(_) => panic!("expected an error"),
    }
    a.path = s("a.rs");
    match tool_edit(&a) {
        Err(e) => assert_eq!(e, "missing required parameter: edits"),
        Ok(_) => panic!("expected an error"),
    }
    a.edits = Some(vec![
        EditArg { start: Some(anchor.clone()), end: None, content: s("one") },
        EditArg { start: None, end: None, content: s("two") },
        EditArg { start: s("bad"), end: None, content: s("three") },
    ]);
    match tool_edit(&a) {
        Err(e) => assert_eq!(e, "edit[1]: missing 'start'"),
        Ok(_) => panic!("expected an error"),
    }
    a.edits = Some(vec![EditArg { start: Some(anchor), end: None, content: s("one") }]);
    match dispatch_tool("tilth_edit", &a, true) {
        Ok(ToolCall::Edit { path, edits }) => {
            assert_eq!(path, "a.rs");
            assert_eq!(edits.len(), 1);
            assert_eq!(edits[0].content, "one");
        }
        _ => panic!("expected an edit"),
    }
}

#[test]
fn tool_results_are_wrapped() {
    let ok = handle_tool_call(Ok("output".to_string()));
    assert_eq!((ok.text.as_str(), ok.is_error), ("output", false));
    let err = handle_tool_call(Err("unknown tool: x".to_string()));
    assert_eq!((err.text.as_str(), err.is_error), ("unknown tool: x", true));
}

#[test]
fn budget_cuts_at_character_boundaries() {
    assert_eq!(apply_budget("hello".to_string(), None), "hello");
    assert_eq!(apply_budget("hello".to_string(), Some(2)), "hello");
    assert_eq!(apply_budget("12345678".to_string(), Some(2)), "12345678");
    assert_eq!(
        apply_budget("123456789".to_string(), Some(2)),
        "12345678\n\n... truncated to 2 tokens"
    );
    assert_eq!(apply_budget("→→→".to_string(), Some(1)), "→\n\n... truncated to 1 tokens");
    assert_eq!(apply_budget("abc".to_string(), Some(0)), "\n\n... truncated to 0 tokens");
    assert_eq!(apply_budget(String::new(), Some(0)), "");
    assert_eq!(apply_budget("abc".to_string(), Some(u64::MAX)), "abc");
}

#[test]
fn tool_list() {
    let listed = |edit: bool| -> Vec<(String, Vec<String>, Vec<String>)> {
        tool_definitions(edit)
            .iter()
            .map(|t| {
                (
                    t.name.to_string(),
                    t.required.iter().map(|r| r.to_string()).collect(),
                    t.params.iter().map(|p| p.name.to_string()).collect(),
                )
            })
            .collect()
    };
    let v = |items: &[&str]| -> Vec<String> { items.iter().map(|i| i.to_string()).collect() };
    let mut want = vec![
        ("tilth_read".to_string(), v(&["path"]), v(&["path", "section", "full", "budget"])),
        (
            "tilth_search".to_string(),
            v(&["query"]),
            v(&["query", "scope", "kind", "expand", "context", "budget"]),
        ),
        ("tilth_map".to_string(), v(&[]), v(&["scope", "depth", "budget"])),
        ("tilth_files".to_string(), v(&["pattern"]), v(&["pattern", "scope", "budget"])),
        ("tilth_session".to_string(), v(&[]), v(&["action"])),
    ];
    assert_eq!(listed(false), want);
    want.push(("tilth_edit".to_string(), v(&["path", "edits"]), v(&["path", "edits"])));
    assert_eq!(listed(true), want);
    let tools = tool_definitions(true);
    assert!(tools[0].description.contains("hashline"));
    assert!(!tool_definitions(false)[0].description.contains("hashline"));
    assert_eq!(tools[1].params[2].choices, vec!["symbol", "content", "regex"]);
    assert_eq!(tools[1].params[3].default_value, Some("0"));
    assert_eq!(tools[2].params[1].default_value, Some("3"));
    assert_eq!(tools[4].params[0].choices, vec!["summary", "reset"]);
    let edits = &tools[5].params[1];
    assert_eq!(edits.kind, "array");
    let items: Vec<&str> = edits.items.iter().map(|p| p.name).collect();
    assert_eq!(items, vec!["start", "end", "content"]);
    assert_eq!(edits.items_required, vec!["start", "content"]);
}

#[test]
fn tool_list_gives_kinds_defaults_and_choices() {
    let tools = tool_definitions(true);
    let shape = |tool: usize, param: usize| {
        let p = &tools[tool].params[param];
        (p.name, p.kind, p.default_value, p.choices.clone())
    };
    assert_eq!(shape(0, 2), ("full", "boolean", Some("false"), vec![]));
    assert_eq!(shape(1, 1), ("scope", "string", None, vec![]));
    assert_eq!(
        shape(1, 2),
        ("kind", "string", Some("\"symbol\""), vec!["symbol", "content", "regex"])
    );
    assert_eq!(shape(1, 3), ("expand", "number", Some("0"), vec![]));
    assert_eq!(shape(2, 1), ("depth", "number", Some("3"), vec![]));
    assert_eq!(shape(4, 0), ("action", "string", Some("\"summary\""), vec!["summary", "reset"]));
    assert_eq!(shape(5, 1), ("edits", "array", None, vec![]));
    let fields: Vec<&str> = tools[5].params[1].items.iter().map(|p| p.name).collect();
    assert_eq!(fields, vec!["start", "end", "content"]);
    assert_eq!(tools[5].params[1].items_required, vec!["start", "content"]);
}

#[test]
fn dispatch_gives_what_each_tool_gives() {
    let mut a = args();
    a.path = s("a.rs");
    assert!(matches!(dispatch_tool("tilth_edit", &a, true), Err(e) if e == "missing required parameter: edits"));
    assert!(matches!(dispatch_tool("tilth_edit", &a, false), Err(e) if e == "unknown tool: tilth_edit"));
    assert!(matches!(
        dispatch_tool("tilth_read", &a, false),
        Ok(ToolCall::Read { path, section: None, full: false, budget: None }) if path == "a.rs"
    ));
    assert!(matches!(
        dispatch_tool("tilth_map", &args(), false),
        Ok(ToolCall::DirMap { scope, depth: 3, budget: None }) if scope == "."
    ));
}

use vlk_core::memory::Memory;
use vlk_core::protocol::{
    can_serve, get_session_id, handle, parse_failure, session_of, tool_failure, Reply, Request, ToolArguments,
};
use vlk_core::slot::TimelineSlot;
use vlk_core::time_travel::TimeTravelArgs;

fn no_arguments() -> ToolArguments {
    ToolArguments {
        session_id: None,
        travel: None,
        query: None,
        limit: None,
        timeline_id: None,
        raw_log: None,
        file_context: None,
        tool_payload: None,
    }
}

fn call(memory: &mut Memory, tool: &str, arguments: ToolArguments) -> Reply {
    let request = Request { method: "tools/call".to_string(), tool: tool.to_string(), arguments };
    assert!(can_serve(memory, &request));
    handle(memory, request)
}

fn ask(method: &str) -> Reply {
    let request = Request { method: method.to_string(), tool: String::new(), arguments: no_arguments() };
    handle(&mut Memory::new(), request)
}

fn text(reply: Reply) -> String {
    match reply {
        Reply::Text(text) => text,
        other => panic!("{other:?}"),
    }
}

fn failure(reply: Reply) -> (i32, String) {
    match reply {
        Reply::Failure { code, message } => (code, message),
        other => panic!("{other:?}"),
    }
}

fn slots(reply: Reply) -> Vec<TimelineSlot> {
    match reply {
        Reply::Slots(slots) => slots,
        other => panic!("{other:?}"),
    }
}

fn log(raw_log: &str) -> ToolArguments {
    ToolArguments { raw_log: Some(raw_log.to_string()), ..no_arguments() }
}

fn travel(ids: Vec<i64>, lesson: &str, excerpt: &str) -> ToolArguments {
    ToolArguments {
        travel: Some(TimeTravelArgs {
            session_id: None,
            target_timeline_ids: ids,
            learning: lesson.to_string(),
            raw_log_excerpt: excerpt.to_string(),
            constraint_type: None,
        }),
        ..no_arguments()
    }
}

#[test]
fn initialize_says_who_the_server_is() {
    match ask("initialize") {
        Reply::Welcome { protocol_version, server_name, server_version } => {
            assert_eq!(protocol_version, "2024-11-05");
            assert_eq!(server_name, "Vlk MemAct");
            assert_eq!(server_version, "0.4.0-chronesthesia");
        }
        other => panic!("{other:?}"),
    }
}

#[test]
fn other_methods_are_answered() {
    assert!(matches!(ask("prompts/list"), Reply::NoPrompts));
    assert!(matches!(ask("notifications/initialized"), Reply::Nothing));
    assert_eq!(failure(ask("tools/drop")), (-32601, "Method not found: tools/drop".to_string()));
}

#[test]
fn the_tools_are_listed() {
    let tools = match ask("tools/list") {
        Reply::Tools(tools) => tools,
        other => panic!("{other:?}"),
    };
    let names: Vec<&str> = tools.iter().map(|t| t.name).collect();
    assert_eq!(
        names,
        vec![
            "vlk_record_state",
            "vlk_time_travel",
            "vlk_get_history",
            "vlk_search_memory",
            "vlk_summarize_session",
            "vlk_fetch_context",
            "vlk_revoke_future",
        ]
    );
    assert_eq!(tools[1].required, vec!["target_timeline_ids", "learning", "raw_log_excerpt"]);
    assert_eq!(tools[1].properties[1].items, Some("integer"));
    assert_eq!(tools[1].properties[4].choices, vec!["DERIVED", "PROSPECTIVE"]);
    assert_eq!(tools[2].properties[1].default, Some(50));
    assert_eq!(tools[3].properties[2].default, Some(20));
    assert_eq!(tools[3].required, vec!["query"]);
    assert!(tools[4].required.is_empty());
    assert_eq!(tools[6].properties[1].name, "timeline_id");
    for tool in &tools {
        assert_eq!(tool.properties[0].name, "session_id");
        assert_eq!(tool.properties[0].description, "Optional. Defaults to 'default'.");
        let reply = call(&mut Memory::new(), tool.name, no_arguments());
        assert!(!matches!(reply, Reply::ToolError(_)));
    }
}

#[test]
fn unknown_tools_are_named() {
    match call(&mut Memory::new(), "vlk_forget", no_arguments()) {
        Reply::ToolError(text) => assert_eq!(text, "Unknown tool: vlk_forget"),
        other => panic!("{other:?}"),
    }
}

#[test]
fn the_session_defaults() {
    assert_eq!(get_session_id(&no_arguments()), "default");
    let named = ToolArguments { session_id: Some("s".to_string()), ..no_arguments() };
    assert_eq!(get_session_id(&named), "s");
    let request = Request {
        method: "tools/call".to_string(),
        tool: "vlk_time_travel".to_string(),
        arguments: named,
    };
    assert_eq!(session_of(&request), "default");
    let request = Request { tool: "vlk_get_history".to_string(), ..request };
    assert_eq!(session_of(&request), "s");
}

#[test]
fn logs_are_recorded() {
    let mut memory = Memory::new();
    assert_eq!(
        text(call(&mut memory, "vlk_record_state", log("boom"))),
        "📝 [VLK RECORD] PRESENT state recorded as content_id=1 in session 'default'"
    );
    assert_eq!(
        failure(call(&mut memory, "vlk_record_state", log(" \n"))),
        (-32603, "Field 'raw_log' is required.".to_string())
    );
    assert_eq!(
        failure(call(&mut memory, "vlk_record_state", no_arguments())).1,
        "Field 'raw_log' is required."
    );
    assert_eq!(slots(call(&mut memory, "vlk_get_history", no_arguments())).len(), 1);
}

#[test]
fn time_travel_is_reported() {
    let mut memory = Memory::new();
    call(&mut memory, "vlk_record_state", log("boom"));
    assert_eq!(
        text(call(&mut memory, "vlk_time_travel", travel(vec![1], " look first ", "boom"))),
        "🧠 [VLK CHRONESTHESIA] Transitioned timeline slots to PAST (~2 tokens saved). FUTURE constraint injected:\n---\nlook first\n---\nThese lessons will be prefixed as [PREVENTIVE FUTURE CONSTRAINT] in subsequent context fetches. Old raw logs are archived and will no longer consume context."
    );
}

#[test]
fn refused_time_travel_is_reported() {
    let mut memory = Memory::new();
    assert_eq!(
        failure(call(&mut memory, "vlk_time_travel", no_arguments())),
        (-32603, "Time travel failed: Field 'learning' is required and cannot be empty.".to_string())
    );
    let bare = failure(call(&mut memory, "vlk_time_travel", travel(vec![1], "lesson", "")));
    assert!(bare.1.starts_with("Time travel failed: Field 'raw_log_excerpt' is required."));
    assert!(memory.take_changes().is_empty());
}

#[test]
fn history_has_a_default_limit() {
    let mut memory = Memory::new();
    for n in 0..60 {
        call(&mut memory, "vlk_record_state", log(&n.to_string()));
    }
    assert_eq!(slots(call(&mut memory, "vlk_get_history", no_arguments())).len(), 50);
    let all = ToolArguments { limit: Some(-1), ..no_arguments() };
    assert_eq!(slots(call(&mut memory, "vlk_get_history", all)).len(), 60);
}

#[test]
fn searches_have_a_default_limit_and_need_a_query() {
    let mut memory = Memory::new();
    for _ in 0..25 {
        call(&mut memory, "vlk_record_state", log("needle"));
    }
    let query = |text: &str| ToolArguments { query: Some(text.to_string()), ..no_arguments() };
    assert_eq!(slots(call(&mut memory, "vlk_search_memory", query("  NEEDLE "))).len(), 20);
    assert_eq!(
        failure(call(&mut memory, "vlk_search_memory", query("   "))),
        (-32603, "Field 'query' is required.".to_string())
    );
    assert_eq!(
        failure(call(&mut memory, "vlk_search_memory", query(&"x".repeat(60_000)))).1,
        "Search failed: error returned from database: (code: 1) LIKE or GLOB pattern too complex"
    );
}

#[test]
fn sessions_are_summarized() {
    let mut memory = Memory::new();
    call(&mut memory, "vlk_record_state", log("boom"));
    assert_eq!(
        text(call(&mut memory, "vlk_summarize_session", no_arguments())),
        "Session 'default': 1 total timeline slots | 1 PRESENT (active) | 0 PAST (archived) | 0 FUTURE (constraints) | ~2 estimated tokens in raw_log data."
    );
}

#[test]
fn contexts_are_fetched() {
    let mut memory = Memory::new();
    for _ in 0..3 {
        call(&mut memory, "vlk_record_state", log("boom"));
    }
    let context = text(call(&mut memory, "vlk_fetch_context", no_arguments()));
    assert!(context.contains("[PREVENTIVE FUTURE CONSTRAINT]: [SYSTEM ANCHOR] Loop detected (exact)"));
    assert!(!context.contains("Log: boom"));
    assert_eq!(text(call(&mut memory, "vlk_fetch_context", no_arguments())), context);
}

#[test]
fn every_log_is_answered_for() {
    let mut memory = Memory::new();
    call(&mut memory, "vlk_record_state", log("\u{130} KeyErrorñ: x"));
    let context = text(call(&mut memory, "vlk_fetch_context", no_arguments()));
    assert!(context.ends_with("[ACTIVE PRESENT STATE]  | Log: \u{130} KeyErrorñ: x\n"));
}

#[test]
fn constraints_are_revoked() {
    let mut memory = Memory::new();
    call(&mut memory, "vlk_time_travel", travel(vec![9], "wrong", "log"));
    let id = |n: i64| ToolArguments { timeline_id: Some(n), ..no_arguments() };
    assert_eq!(
        text(call(&mut memory, "vlk_revoke_future", id(1))),
        "🗑️ [VLK REVOKE] FUTURE constraint #1 revoked (moved to PAST). It will no longer appear in active context."
    );
    assert_eq!(
        failure(call(&mut memory, "vlk_revoke_future", id(1))),
        (-32603, "No FUTURE constraint found with id #1 in session 'default'.".to_string())
    );
    assert_eq!(
        failure(call(&mut memory, "vlk_revoke_future", id(-7))).1,
        "No FUTURE constraint found with id #-7 in session 'default'."
    );
    assert_eq!(
        failure(call(&mut memory, "vlk_revoke_future", no_arguments())).1,
        "Field 'timeline_id' is required."
    );
}

#[test]
fn failures_of_the_store_name_the_tool() {
    let message = |tool: &str| failure(tool_failure(tool, "disk full")).1;
    assert_eq!(message("vlk_record_state"), "Record failed: disk full");
    assert_eq!(message("vlk_time_travel"), "Time travel failed: disk full");
    assert_eq!(message("vlk_get_history"), "Failed to get timeline: disk full");
    assert_eq!(message("vlk_search_memory"), "Search failed: disk full");
    assert_eq!(message("vlk_summarize_session"), "Summarize failed: disk full");
    assert_eq!(message("vlk_fetch_context"), "Fetch context failed: disk full");
    assert_eq!(message("vlk_revoke_future"), "Revoke failed: disk full");
    assert_eq!(failure(parse_failure("bad")), (-32700, "bad".to_string()));
}

#[test]
fn requests_beyond_the_means_are_told() {
    let slot = TimelineSlot {
        id: 1,
        content_id: None,
        session_id: "default".to_string(),
        sequence_order: i64::MAX,
        temporal_state: "PAST".to_string(),
        learning_summary: None,
        created_at: None,
        constraint_type: None,
        raw_log: None,
        file_context: None,
    };
    let memory = match Memory::load(vec![slot], 2, 1) {
        Some(memory) => memory,
        None => panic!("not loaded"),
    };
    let request = |tool: &str| Request {
        method: "tools/call".to_string(),
        tool: tool.to_string(),
        arguments: log("boom"),
    };
    assert!(!can_serve(&memory, &request("vlk_record_state")));
    assert!(can_serve(&memory, &request("vlk_time_travel")));
    let served = Request { arguments: travel(vec![1], "lesson", "log"), ..request("vlk_time_travel") };
    assert!(!can_serve(&memory, &served));
    assert!(!can_serve(&memory, &request("vlk_fetch_context")));
    assert!(can_serve(&memory, &request("vlk_summarize_session")));
}

//! What each request is answered, and what it does.
use vstd::prelude::*;
use crate::census::{count, lemma_selected_lists, log_chars};
use crate::context::{annotated_context, cleaned};
use crate::effects::{is_target, lemma_travel_saves_moved_logs, lemma_what_is_refused};
use crate::memory::State;
use crate::loops::present_logs;
use crate::protocol::{answered, has_means, trouble, ReplyView, RequestView, PARSE_ERROR};
use crate::record::recorded;
use crate::repetition::is_logged;
use crate::revocation::revoked;
use crate::slot::{Query, SlotView};
use crate::text::{decimal, trim};
use crate::text_laws::{is_blank, lemma_trim};
use crate::time_travel::{travelled, ArgsView};
use crate::timeline::{history, search, search_fails, summary};
use crate::tokens::estimated_tokens;
use crate::tools::{offered_tools, ToolView};

verus! {

/// Whether a request calls a tool.
pub open spec fn calls(request: RequestView, tool: Seq<char>) -> bool {
    request.method == "tools/call"@ && request.tool == tool
}

/// The session that a name stands for: the default one where none is named.
pub open spec fn named_session(name: Option<Seq<char>>) -> Seq<char> {
    match name {
        Some(session) => session,
        None => "default"@,
    }
}

/// The failure of a tool.
pub open spec fn failed(message: Seq<char>) -> ReplyView {
    ReplyView::Failure { code: (-32603) as i32, message }
}

/// The names of the tools differ from each other.
proof fn lemma_names_differ()
    ensures
        "vlk_record_state"@ != "vlk_time_travel"@,
        "vlk_record_state"@ != "vlk_get_history"@,
        "vlk_record_state"@ != "vlk_search_memory"@,
        "vlk_record_state"@ != "vlk_summarize_session"@,
        "vlk_record_state"@ != "vlk_fetch_context"@,
        "vlk_record_state"@ != "vlk_revoke_future"@,
        "vlk_time_travel"@ != "vlk_get_history"@,
        "vlk_time_travel"@ != "vlk_search_memory"@,
        "vlk_time_travel"@ != "vlk_summarize_session"@,
        "vlk_time_travel"@ != "vlk_fetch_context"@,
        "vlk_time_travel"@ != "vlk_revoke_future"@,
        "vlk_get_history"@ != "vlk_search_memory"@,
        "vlk_get_history"@ != "vlk_summarize_session"@,
        "vlk_get_history"@ != "vlk_fetch_context"@,
        "vlk_get_history"@ != "vlk_revoke_future"@,
        "vlk_search_memory"@ != "vlk_summarize_session"@,
        "vlk_search_memory"@ != "vlk_fetch_context"@,
        "vlk_search_memory"@ != "vlk_revoke_future"@,
        "vlk_summarize_session"@ != "vlk_fetch_context"@,
        "vlk_summarize_session"@ != "vlk_revoke_future"@,
        "vlk_fetch_context"@ != "vlk_revoke_future"@,
{
    reveal_strlit("vlk_record_state");
    reveal_strlit("vlk_time_travel");
    reveal_strlit("vlk_get_history");
    reveal_strlit("vlk_search_memory");
    reveal_strlit("vlk_summarize_session");
    reveal_strlit("vlk_fetch_context");
    reveal_strlit("vlk_revoke_future");
    assert("vlk_record_state"@.len() == 16);
    assert("vlk_time_travel"@.len() == 15 && "vlk_time_travel"@[4] == 't');
    assert("vlk_get_history"@.len() == 15 && "vlk_get_history"@[4] == 'g');
    assert("vlk_search_memory"@.len() == 17 && "vlk_search_memory"@[4] == 's');
    assert("vlk_summarize_session"@.len() == 21);
    assert("vlk_fetch_context"@.len() == 17 && "vlk_fetch_context"@[4] == 'f');
    assert("vlk_revoke_future"@.len() == 17 && "vlk_revoke_future"@[4] == 'r');
}

/// The methods differ from each other.
proof fn lemma_methods_differ()
    ensures
        "initialize"@ != "tools/list"@,
        "initialize"@ != "tools/call"@,
        "initialize"@ != "prompts/list"@,
        "initialize"@ != "notifications/initialized"@,
        "tools/list"@ != "tools/call"@,
        "tools/list"@ != "prompts/list"@,
        "tools/list"@ != "notifications/initialized"@,
        "tools/call"@ != "prompts/list"@,
        "tools/call"@ != "notifications/initialized"@,
        "prompts/list"@ != "notifications/initialized"@,
{
    reveal_strlit("initialize");
    reveal_strlit("tools/list");
    reveal_strlit("tools/call");
    reveal_strlit("prompts/list");
    reveal_strlit("notifications/initialized");
    assert("initialize"@.len() == 10 && "initialize"@[0] == 'i');
    assert("tools/list"@.len() == 10 && "tools/list"@[0] == 't' && "tools/list"@[6] == 'l');
    assert("tools/call"@.len() == 10 && "tools/call"@[0] == 't' && "tools/call"@[6] == 'c');
    assert("prompts/list"@.len() == 12);
    assert("notifications/initialized"@.len() == 25);
}

/// A request to record stores the log as it was given, with its file and its payload, in the session that
/// is named, and answers with the content's id. Without a log, or with a blank one, it fails.
pub proof fn lemma_record_request(state: State, request: RequestView)
    requires
        calls(request, "vlk_record_state"@),
    ensures
        ({
            let given = request.arguments;
            let session = named_session(given.session_id);
            match given.raw_log {
                None => {
                    &&& answered(state, request).state == state
                    &&& answered(state, request).reply == failed("Field 'raw_log' is required."@)
                },
                Some(log) => {
                    &&& is_blank(log) ==> answered(state, request).state == state
                    &&& is_blank(log) ==> answered(state, request).reply == failed(
                        "Field 'raw_log' is required."@,
                    )
                    &&& !is_blank(log) ==> answered(state, request).state == recorded(
                        state,
                        session,
                        log,
                        given.file_context,
                        given.tool_payload,
                    )
                    &&& !is_blank(log) ==> answered(state, request).reply == ReplyView::Text(
                        "📝 [VLK RECORD] PRESENT state recorded as content_id="@ + decimal(
                            state.next_content_id,
                        ) + " in session '"@ + session + "'"@,
                    )
                },
            }
        }),
{
    lemma_methods_differ();
    if let Some(log) = request.arguments.raw_log {
        lemma_trim(log);
    }
}

/// Why a request for time travel is turned down: the first of its faults.
pub open spec fn fault(args: Option<ArgsView>) -> Option<Seq<char>> {
    match args {
        None => Some("Field 'learning' is required and cannot be empty."@),
        Some(args) => if is_blank(args.learning) {
            Some("Field 'learning' is required and cannot be empty."@)
        } else if args.target_timeline_ids.len() == 0 {
            Some("Field 'target_timeline_ids' must contain at least one ID."@)
        } else if is_blank(args.raw_log_excerpt) {
            Some(
                "Field 'raw_log_excerpt' is required. Provide 1-2 sentences of the raw error/log that grounds this lesson in evidence. This prevents unverified constraints from being injected."@,
            )
        } else {
            match args.constraint_type {
                None => None,
                Some(kind) => if kind == "DERIVED"@ || kind == "PROSPECTIVE"@ {
                    None
                } else {
                    Some(
                        "Field 'constraint_type' must be 'DERIVED' (default) or 'PROSPECTIVE', got '"@ + kind
                            + "'"@,
                    )
                },
            }
        },
    }
}

/// A request for time travel that has no fault is served: the answer tells the lesson and the tokens that
/// the logs of all slots it moves come to. One that has a fault changes nothing and is told the first.
pub proof fn lemma_travel_request(state: State, request: RequestView)
    requires
        calls(request, "vlk_time_travel"@),
    ensures
        match fault(request.arguments.travel) {
            Some(message) => {
                &&& answered(state, request).state == state
                &&& answered(state, request).reply == failed("Time travel failed: "@ + message)
            },
            None => {
                let args = request.arguments.travel->0;
                let tokens = estimated_tokens(
                    log_chars(state.slots, |slot: SlotView| is_target(args, slot)) as int,
                );
                &&& answered(state, request).state == travelled(state, args)
                &&& answered(state, request).reply == ReplyView::Text(
                    "🧠 [VLK CHRONESTHESIA] Transitioned timeline slots to PAST (~"@ + decimal(tokens)
                        + " tokens saved). FUTURE constraint injected:\n---\n"@ + trim(args.learning)
                        + "\n---\nThese lessons will be prefixed as [PREVENTIVE FUTURE CONSTRAINT] in subsequent context fetches. Old raw logs are archived and will no longer consume context."@,
                )
            },
        },
{
    lemma_methods_differ();
    lemma_names_differ();
    let args = request.arguments.travel_request();
    lemma_trim(args.learning);
    lemma_trim(args.raw_log_excerpt);
    lemma_what_is_refused(args);
    lemma_travel_saves_moved_logs(state, args);
}

/// A request for the history tells the newest slots of the session that is named: as many as are asked
/// for, or else 50. It changes nothing.
pub proof fn lemma_history_request(state: State, request: RequestView)
    requires
        calls(request, "vlk_get_history"@),
    ensures
        ({
            let given = request.arguments;
            let limit = match given.limit {
                Some(n) => n as int,
                None => 50,
            };
            &&& answered(state, request).state == state
            &&& answered(state, request).reply == ReplyView::Slots(
                history(state, named_session(given.session_id), limit),
            )
        }),
{
    lemma_methods_differ();
    lemma_names_differ();
}

/// A search looks for the query, trimmed, in the session that is named, and tells as many slots as are asked
/// for, or else 20. Without a query, or with a blank one, it fails. It changes nothing.
pub proof fn lemma_search_request(state: State, request: RequestView)
    requires
        calls(request, "vlk_search_memory"@),
    ensures
        answered(state, request).state == state,
        ({
            let given = request.arguments;
            let session = named_session(given.session_id);
            let limit = match given.limit {
                Some(n) => n as int,
                None => 20,
            };
            let reply = answered(state, request).reply;
            match given.query {
                None => reply == failed("Field 'query' is required."@),
                Some(query) => {
                    &&& is_blank(query) ==> reply == failed("Field 'query' is required."@)
                    &&& !is_blank(query) && search_fails(state, session, trim(query), limit) ==> reply
                        == failed(
                        "Search failed: "@
                            + "error returned from database: (code: 1) LIKE or GLOB pattern too complex"@,
                    )
                    &&& !is_blank(query) && !search_fails(state, session, trim(query), limit) ==> reply
                        == ReplyView::Slots(search(state, session, trim(query), limit))
                },
            }
        }),
{
    lemma_methods_differ();
    lemma_names_differ();
    if let Some(query) = request.arguments.query {
        lemma_trim(query);
    }
}

/// A request for a summary is answered with that of the session that is named, and changes nothing.
pub proof fn lemma_summary_request(state: State, request: RequestView)
    requires
        calls(request, "vlk_summarize_session"@),
    ensures
        answered(state, request).state == state,
        answered(state, request).reply == ReplyView::Text(
            summary(state, named_session(request.arguments.session_id)),
        ),
{
    lemma_methods_differ();
    lemma_names_differ();
}

/// A request for the context cleans the session that is named up, and is answered with the context and the
/// warnings of what that leaves.
pub proof fn lemma_fetch_request(state: State, request: RequestView)
    requires
        calls(request, "vlk_fetch_context"@),
    ensures
        ({
            let session = named_session(request.arguments.session_id);
            let after = answered(state, request).state;
            &&& after == cleaned(state, session)
            &&& answered(state, request).reply == ReplyView::Text(annotated_context(after, session))
        }),
{
    lemma_methods_differ();
    lemma_names_differ();
}

/// A request to revoke moves the constraint with the given id to the past where the session that is named
/// has it. Where it does not, or where no id is given, it fails and changes nothing.
pub proof fn lemma_revoke_request(state: State, request: RequestView)
    requires
        calls(request, "vlk_revoke_future"@),
    ensures
        ({
            let session = named_session(request.arguments.session_id);
            let after = answered(state, request).state;
            let reply = answered(state, request).reply;
            match request.arguments.timeline_id {
                None => after == state && reply == failed("Field 'timeline_id' is required."@),
                Some(id) => {
                    let known = exists|i: int|
                        0 <= i < state.slots.len() && (#[trigger] state.slots[i]).id == id
                            && state.slots[i].session_id == session && state.slots[i].temporal_state
                            == "FUTURE"@;
                    &&& id == 0 ==> after == state && reply == failed(
                        "Field 'timeline_id' is required."@,
                    )
                    &&& id != 0 && known ==> after == revoked(state, session, id)
                    &&& id != 0 && known ==> reply == ReplyView::Text(
                        "🗑️ [VLK REVOKE] FUTURE constraint #"@ + decimal(id as int)
                            + " revoked (moved to PAST). It will no longer appear in active context."@,
                    )
                    &&& id != 0 && !known ==> after == state
                    &&& id != 0 && !known ==> reply == failed(
                        "No FUTURE constraint found with id #"@ + decimal(id as int) + " in session '"@
                            + session + "'."@,
                    )
                },
            }
        }),
{
    lemma_methods_differ();
    lemma_names_differ();
}

/// A request that calls no tool changes nothing. Each method that there is has its answer, and so has
/// every other.
pub proof fn lemma_other_request(state: State, request: RequestView)
    requires
        request.method != "tools/call"@,
    ensures
        answered(state, request).state == state,
        ({
            let method = request.method;
            let reply = answered(state, request).reply;
            &&& method == "initialize"@ ==> reply == (ReplyView::Welcome {
                protocol_version: "2024-11-05"@,
                server_name: "Vlk MemAct"@,
                server_version: "0.4.0-chronesthesia"@,
            })
            &&& method == "tools/list"@ ==> reply == ReplyView::Tools(offered_tools())
            &&& method == "prompts/list"@ ==> reply is NoPrompts
            &&& method == "notifications/initialized"@ ==> reply is Nothing
            &&& method != "initialize"@ && method != "tools/list"@ && method != "prompts/list"@ && method
                != "notifications/initialized"@ ==> reply == (ReplyView::Failure {
                code: (-32601) as i32,
                message: "Method not found: "@ + method,
            })
        }),
{
    lemma_methods_differ();
}

/// A call of a tool that there is not is told so, and changes nothing.
pub proof fn lemma_unknown_tool(state: State, request: RequestView)
    requires
        request.method == "tools/call"@,
        request.tool != "vlk_record_state"@,
        request.tool != "vlk_time_travel"@,
        request.tool != "vlk_get_history"@,
        request.tool != "vlk_search_memory"@,
        request.tool != "vlk_summarize_session"@,
        request.tool != "vlk_fetch_context"@,
        request.tool != "vlk_revoke_future"@,
    ensures
        answered(state, request).state == state,
        answered(state, request).reply == ReplyView::ToolError("Unknown tool: "@ + request.tool),
{
    lemma_methods_differ();
}

/// What is said of a tool that the store let down, and of a request that cannot be read.
pub proof fn lemma_troubles(reason: Seq<char>)
    ensures
        trouble("vlk_record_state"@, reason) == failed("Record failed: "@ + reason),
        trouble("vlk_time_travel"@, reason) == failed("Time travel failed: "@ + reason),
        trouble("vlk_get_history"@, reason) == failed("Failed to get timeline: "@ + reason),
        trouble("vlk_search_memory"@, reason) == failed("Search failed: "@ + reason),
        trouble("vlk_summarize_session"@, reason) == failed("Summarize failed: "@ + reason),
        trouble("vlk_fetch_context"@, reason) == failed("Fetch context failed: "@ + reason),
        trouble("vlk_revoke_future"@, reason) == failed("Revoke failed: "@ + reason),
        PARSE_ERROR == -32700,
{
    lemma_names_differ();
}

/// Whether a request can be served depends on ids, positions and measures only where it records a log,
/// travels, or cleans a session up, and is not turned down for another reason.
pub proof fn lemma_what_is_served(state: State, request: RequestView)
    ensures
        request.method != "tools/call"@ ==> has_means(state, request),
        request.tool != "vlk_record_state"@ && request.tool != "vlk_time_travel"@ && request.tool
            != "vlk_fetch_context"@ ==> has_means(state, request),
        calls(request, "vlk_record_state"@) ==> {
            has_means(state, request) <==> match request.arguments.raw_log {
                None => true,
                Some(log) => is_blank(log) || state.takes(log),
            }
        },
        calls(request, "vlk_time_travel"@) ==> {
            has_means(state, request) <==> fault(request.arguments.travel) is Some || state.room(1)
        },
        calls(request, "vlk_fetch_context"@) ==> {
            let session = named_session(request.arguments.session_id);
            has_means(state, request) <==> state.room(
                count(state.slots, |slot: SlotView| is_logged(session, slot)) as int + 1,
            )
        },
{
    lemma_names_differ();
    if let Some(log) = request.arguments.raw_log {
        lemma_trim(log);
    }
    let args = request.arguments.travel_request();
    lemma_trim(args.learning);
    lemma_trim(args.raw_log_excerpt);
    lemma_what_is_refused(args);
    let session = named_session(request.arguments.session_id);
    let query = Query::in_state(session, "PRESENT"@).with_log();
    let which = |slot: SlotView| is_logged(session, slot);
    assert forall|slot: SlotView| #[trigger] which(slot) == query.picks(slot) by {}
    lemma_selected_lists(state.slots, query, which);
    assert(present_logs(state, session).len() == count(state.slots, which));
}

/// Whether a tool has a property with the given name and JSON type.
pub open spec fn takes(tool: ToolView, name: Seq<char>, kind: Seq<char>) -> bool {
    exists|i: int|
        0 <= i < tool.properties.len() && (#[trigger] tool.properties[i]).name == name
            && tool.properties[i].kind == kind
}

/// The `i`-th property of a tool has the given name and type.
proof fn lemma_takes(tool: ToolView, i: int, name: Seq<char>, kind: Seq<char>)
    requires
        0 <= i < tool.properties.len(),
        tool.properties[i].name == name,
        tool.properties[i].kind == kind,
    ensures
        takes(tool, name, kind),
{
}

/// Every tool takes the name of a session, and beside it what it needs. What it cannot do without is
/// marked as required, and nothing else is.
pub proof fn lemma_what_tools_take()
    ensures
        offered_tools().len() == 7,
        forall|i: int|
            0 <= i < 7 ==> takes(#[trigger] offered_tools()[i], "session_id"@, "string"@),
        ({
            let tool = offered_tools()[0];
            &&& tool.name == "vlk_record_state"@
            &&& tool.properties.len() == 4
            &&& takes(tool, "raw_log"@, "string"@)
            &&& takes(tool, "file_context"@, "string"@)
            &&& takes(tool, "tool_payload"@, "string"@)
            &&& tool.required == seq!["raw_log"@]
        }),
        ({
            let tool = offered_tools()[1];
            &&& tool.name == "vlk_time_travel"@
            &&& tool.properties.len() == 5
            &&& takes(tool, "target_timeline_ids"@, "array"@)
            &&& takes(tool, "learning"@, "string"@)
            &&& takes(tool, "raw_log_excerpt"@, "string"@)
            &&& takes(tool, "constraint_type"@, "string"@)
            &&& tool.properties[1].items == Some("integer"@)
            &&& tool.properties[4].choices == seq!["DERIVED"@, "PROSPECTIVE"@]
            &&& tool.required == seq!["target_timeline_ids"@, "learning"@, "raw_log_excerpt"@]
        }),
        ({
            let tool = offered_tools()[2];
            &&& tool.name == "vlk_get_history"@
            &&& tool.properties.len() == 2
            &&& takes(tool, "limit"@, "integer"@)
            &&& tool.required.len() == 0
        }),
        ({
            let tool = offered_tools()[3];
            &&& tool.name == "vlk_search_memory"@
            &&& tool.properties.len() == 3
            &&& takes(tool, "query"@, "string"@)
            &&& takes(tool, "limit"@, "integer"@)
            &&& tool.required == seq!["query"@]
        }),
        offered_tools()[4].name == "vlk_summarize_session"@,
        offered_tools()[4].properties.len() == 1,
        offered_tools()[4].required.len() == 0,
        offered_tools()[5].name == "vlk_fetch_context"@,
        offered_tools()[5].properties.len() == 1,
        offered_tools()[5].required.len() == 0,
        ({
            let tool = offered_tools()[6];
            &&& tool.name == "vlk_revoke_future"@
            &&& tool.properties.len() == 2
            &&& takes(tool, "timeline_id"@, "integer"@)
            &&& tool.required == seq!["timeline_id"@]
        }),
{
    let tools = offered_tools();
    assert forall|i: int| 0 <= i < 7 implies takes(
        #[trigger] offered_tools()[i],
        "session_id"@,
        "string"@,
    ) by {
        lemma_takes(tools[i], 0, "session_id"@, "string"@);
    }
    lemma_takes(tools[0], 1, "raw_log"@, "string"@);
    lemma_takes(tools[0], 2, "file_context"@, "string"@);
    lemma_takes(tools[0], 3, "tool_payload"@, "string"@);
    lemma_takes(tools[1], 1, "target_timeline_ids"@, "array"@);
    lemma_takes(tools[1], 2, "learning"@, "string"@);
    lemma_takes(tools[1], 3, "raw_log_excerpt"@, "string"@);
    lemma_takes(tools[1], 4, "constraint_type"@, "string"@);
    lemma_takes(tools[2], 1, "limit"@, "integer"@);
    lemma_takes(tools[3], 1, "query"@, "string"@);
    lemma_takes(tools[3], 2, "limit"@, "integer"@);
    lemma_takes(tools[6], 1, "timeline_id"@, "integer"@);
}

/// What is said of each tool.
pub proof fn lemma_what_tools_are_for()
    ensures
        offered_tools()[0].description
            == "Push an error, log, or observation into memory as a PRESENT timeline slot. Recorded slots are what loop detection and vlk_time_travel operate on."@,
        offered_tools()[1].description
            == "Chronesthetic memory management. Transitions PRESENT timeline slots to PAST and injects a FUTURE constraint. Use when stuck in a failure loop or context is cluttered. Check vlk_get_history for [timeline:N] IDs. Requires raw_log_excerpt as evidence — the original error/log that grounds this lesson."@,
        offered_tools()[2].description
            == "Returns the full timeline for a session including temporal state (PRESENT/PAST/FUTURE), content excerpts, and timeline IDs. Use to audit context or find IDs for vlk_time_travel."@,
        offered_tools()[3].description
            == "Search timeline by keyword across raw logs and learning summaries. Useful for retrieving specific facts, errors, or past decisions."@,
        offered_tools()[4].description
            == "Returns a condensed summary of session memory with counts of PRESENT (active), PAST (archived), and FUTURE (constraint) timeline slots."@,
        offered_tools()[5].description
            == "Returns the clean active context (PRESENT + FUTURE only). Automatically detects and mitigates error loops: if the same error repeats 3+ times, it's archived as PAST and a SYSTEM ANCHOR constraint is injected. Also consolidates FUTURE constraints when they exceed 5+ entries and detects conflicting directives. Call this before each agent iteration."@,
        offered_tools()[6].description
            == "Revoke a FUTURE constraint by moving it to PAST. Use this when a constraint was incorrectly learned or is no longer applicable. Find the timeline ID via vlk_get_history."@,
        forall|i: int|
            0 <= i < 7 ==> (#[trigger] offered_tools()[i]).properties[0].description
                == "Optional. Defaults to 'default'."@,
{
}

/// A history or a search without a limit is that with the limit which its tool says is the default.
pub proof fn lemma_defaults_are_kept(state: State, request: RequestView, explicit: RequestView, k: int)
    requires
        k == 2 || k == 3,
        calls(request, offered_tools()[k].name),
        calls(explicit, offered_tools()[k].name),
        request.arguments.limit is None,
        explicit.arguments.limit == offered_tools()[k].properties[k - 1].default,
        explicit.arguments.session_id == request.arguments.session_id,
        explicit.arguments.query == request.arguments.query,
    ensures
        offered_tools()[k].properties[k - 1].name == "limit"@,
        answered(state, request) == answered(state, explicit),
{
    if k == 2 {
        lemma_history_request(state, request);
        lemma_history_request(state, explicit);
    } else {
        lemma_methods_differ();
        lemma_names_differ();
        assert(explicit.arguments.limit_or(20) == request.arguments.limit_or(20));
    }
}

} // verus!

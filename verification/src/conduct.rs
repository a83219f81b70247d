//! How requests behave, whatever they are.
use vstd::prelude::*;
use crate::guarantees::lemma_clean_is_stable;
use crate::history::{evolves, lemma_evolves_not, lemma_performed, Operation};
use crate::loops::present_logs;
use crate::memory::State;
use crate::protocol::{
    answered, fetch_turn, has_means, session_meant, tool_turn, travel_turn, ArgumentsView, ReplyView, RequestView,
};
use crate::text::trim;
use crate::tools::{
    offered_tools, FETCH_CONTEXT, GET_HISTORY, RECORD_STATE, REVOKE_FUTURE, SEARCH_MEMORY, SUMMARIZE_SESSION,
    TIME_TRAVEL,
};

verus! {

/// Whether a reply says that a request was not served.
pub open spec fn is_refusal(reply: ReplyView) -> bool {
    reply is Failure || reply is ToolError
}

/// A request that is not served changes nothing.
pub proof fn lemma_refusals_change_nothing(state: State, request: RequestView)
    requires
        is_refusal(answered(state, request).reply),
    ensures
        answered(state, request).state == state,
{
}

/// No lesson without evidence: time travel without an excerpt of a log is refused and changes nothing.
pub proof fn lemma_evidence_is_required(state: State, arguments: ArgumentsView)
    requires
        trim(arguments.travel_request().raw_log_excerpt).len() == 0,
    ensures
        is_refusal(travel_turn(state, arguments).reply),
        travel_turn(state, arguments).state == state,
{
}

/// Every tool that is offered can be called, and no other.
pub proof fn lemma_offered_tools_are_known(state: State, tool: Seq<char>, arguments: ArgumentsView)
    ensures
        (exists|i: int| 0 <= i < offered_tools().len() && (#[trigger] offered_tools()[i]).name == tool)
            <==> tool_turn(state, tool, arguments).reply != ReplyView::ToolError(
            "Unknown tool: "@ + tool,
        ),
{
    let tools = offered_tools();
    assert(tools[0].name == RECORD_STATE@);
    assert(tools[1].name == TIME_TRAVEL@);
    assert(tools[2].name == GET_HISTORY@);
    assert(tools[3].name == SEARCH_MEMORY@);
    assert(tools[4].name == SUMMARIZE_SESSION@);
    assert(tools[5].name == FETCH_CONTEXT@);
    assert(tools[6].name == REVOKE_FUTURE@);
}

/// The names of the tools differ.
pub proof fn lemma_tools_differ()
    ensures
        forall|i: int, j: int|
            0 <= i < j < offered_tools().len() ==> (#[trigger] offered_tools()[i]).name != (
            #[trigger] offered_tools()[j]).name,
{
    reveal_strlit("vlk_record_state");
    reveal_strlit("vlk_time_travel");
    reveal_strlit("vlk_get_history");
    reveal_strlit("vlk_search_memory");
    reveal_strlit("vlk_summarize_session");
    reveal_strlit("vlk_fetch_context");
    reveal_strlit("vlk_revoke_future");
    assert(RECORD_STATE@.len() == 16);
    assert(TIME_TRAVEL@.len() == 15 && TIME_TRAVEL@[4] == 't');
    assert(GET_HISTORY@.len() == 15 && GET_HISTORY@[4] == 'g');
    assert(SEARCH_MEMORY@.len() == 17 && SEARCH_MEMORY@[4] == 's');
    assert(SUMMARIZE_SESSION@.len() == 21);
    assert(FETCH_CONTEXT@.len() == 17 && FETCH_CONTEXT@[4] == 'f');
    assert(REVOKE_FUTURE@.len() == 17 && REVOKE_FUTURE@[4] == 'r');
}

/// Looking at the history, searching and counting change nothing.
pub proof fn lemma_looking_changes_nothing(state: State, tool: Seq<char>, arguments: ArgumentsView)
    requires
        tool == GET_HISTORY@ || tool == SEARCH_MEMORY@ || tool == SUMMARIZE_SESSION@,
    ensures
        tool_turn(state, tool, arguments).state == state,
{
    let tools = offered_tools();
    lemma_tools_differ();
    assert(tools[0].name != tools[2].name && tools[0].name != tools[3].name && tools[0].name
        != tools[4].name);
    assert(tools[1].name != tools[2].name && tools[1].name != tools[3].name && tools[1].name
        != tools[4].name);
}

/// Every request keeps the invariant and is work on its session alone.
pub proof fn lemma_requests_stay_in_their_session(state: State, request: RequestView)
    requires
        state.valid(),
        has_means(state, request),
    ensures
        answered(state, request).state.valid(),
        evolves(state, answered(state, request).state, session_meant(request)),
{
    let tool = request.tool;
    let arguments = request.arguments;
    let session = arguments.session();
    lemma_evolves_not(state, session_meant(request));
    assert(RECORD_STATE@ != TIME_TRAVEL@ && TIME_TRAVEL@ != FETCH_CONTEXT@ && TIME_TRAVEL@
        != REVOKE_FUTURE@) by {
        let tools = offered_tools();
        lemma_tools_differ();
        assert(tools[0].name != tools[1].name);
        assert(tools[1].name != tools[5].name);
        assert(tools[1].name != tools[6].name);
    }
    if answered(state, request).state != state {
        let operation = if tool == RECORD_STATE@ {
            Operation::Record {
                session,
                raw_log: arguments.raw_log->0,
                file_context: arguments.file_context,
                tool_payload: arguments.tool_payload,
            }
        } else if tool == TIME_TRAVEL@ {
            Operation::Travel(arguments.travel_request())
        } else if tool == FETCH_CONTEXT@ {
            Operation::Clean { session }
        } else {
            Operation::Revoke { session, id: arguments.slot_id() }
        };
        lemma_performed(state, operation);
    }
}

/// Fetching the context twice shows the same twice, and the second time changes nothing.
pub proof fn lemma_fetching_twice(state: State, arguments: ArgumentsView)
    requires
        state.valid(),
        state.room(present_logs(state, arguments.session()).len() as int + 1),
    ensures
        fetch_turn(fetch_turn(state, arguments).state, arguments) == fetch_turn(state, arguments),
{
    lemma_clean_is_stable(state, arguments.session());
}

} // verus!

//! Answering requests.
use vstd::prelude::*;
use crate::context::{annotated_context, cleaned, fetch_clean_context};
use crate::loops::present_logs;
use crate::memory::{total_weight, Memory, State};
use crate::record::{record_present_state, recorded};
use crate::revocation::{has_constraint, revoke_future_constraint, revoked};
use crate::slot::{at_places, views, Selection, SlotView, TimelineSlot, PRESENT};
use crate::text::{decimal, given, pair, push_decimal, same_text, shown, trim, trimmed_text};
use crate::time_travel::{
    execute_time_travel, refuse, targets, travelled, ArgsView, TimeTravelArgs, DEFAULT_SESSION,
};
use crate::timeline::{
    get_session_summary, get_timeline, history, search, search_fails, search_timeline, summary,
};
use crate::tokens::estimated_tokens;
use crate::tools::{
    offered_tools, tool_definitions, tool_views, Tool, ToolView, FETCH_CONTEXT, GET_HISTORY, RECORD_STATE,
    REVOKE_FUTURE, SEARCH_MEMORY, SUMMARIZE_SESSION, TIME_TRAVEL,
};

verus! {

/// The version of the protocol that the server speaks.
pub const PROTOCOL_VERSION: &'static str = "2024-11-05";

/// The name that the server goes by.
pub const SERVER_NAME: &'static str = "Vlk MemAct";

/// The version of the server.
pub const SERVER_VERSION: &'static str = "0.4.0-chronesthesia";

/// The code of a failure within a tool.
pub const INTERNAL_ERROR: i32 = -32603;

/// The code of a request for a method that there is not.
pub const METHOD_NOT_FOUND: i32 = -32601;

/// The code of a request that cannot be read.
pub const PARSE_ERROR: i32 = -32700;

/// How many slots the history shows where no limit is given.
pub const HISTORY_LIMIT: i64 = 50;

/// How many slots a search shows where no limit is given.
pub const SEARCH_LIMIT: i64 = 20;

/// The arguments of a tool, as far as they were given in the type that is asked for.
#[derive(Debug)]
pub struct ToolArguments {
    pub session_id: Option<String>,
    /// The arguments read as a request for time travel.
    pub travel: Option<TimeTravelArgs>,
    pub query: Option<String>,
    pub limit: Option<i64>,
    pub timeline_id: Option<i64>,
    pub raw_log: Option<String>,
    pub file_context: Option<String>,
    pub tool_payload: Option<String>,
}

/// Arguments as a value of the specification.
pub struct ArgumentsView {
    pub session_id: Option<Seq<char>>,
    pub travel: Option<ArgsView>,
    pub query: Option<Seq<char>>,
    pub limit: Option<i64>,
    pub timeline_id: Option<i64>,
    pub raw_log: Option<Seq<char>>,
    pub file_context: Option<Seq<char>>,
    pub tool_payload: Option<Seq<char>>,
}

impl View for ToolArguments {
    type V = ArgumentsView;

    open spec fn view(&self) -> ArgumentsView {
        ArgumentsView {
            session_id: shown(self.session_id),
            travel: match self.travel {
                None => None,
                Some(args) => Some(args@),
            },
            query: shown(self.query),
            limit: self.limit,
            timeline_id: self.timeline_id,
            raw_log: shown(self.raw_log),
            file_context: shown(self.file_context),
            tool_payload: shown(self.tool_payload),
        }
    }
}

/// A request.
#[derive(Debug)]
pub struct Request {
    pub method: String,
    /// The tool that is called, or nothing where none is named.
    pub tool: String,
    pub arguments: ToolArguments,
}

/// A request as a value of the specification.
pub struct RequestView {
    pub method: Seq<char>,
    pub tool: Seq<char>,
    pub arguments: ArgumentsView,
}

impl View for Request {
    type V = RequestView;

    open spec fn view(&self) -> RequestView {
        RequestView { method: self.method@, tool: self.tool@, arguments: self.arguments@ }
    }
}

/// What a request is answered.
#[derive(Debug)]
pub enum Reply {
    /// Who the server is and what it speaks.
    Welcome {
        protocol_version: &'static str,
        server_name: &'static str,
        server_version: &'static str,
    },
    /// The tools that there are.
    Tools(Vec<Tool>),
    /// That there are no prompts.
    NoPrompts,
    /// Nothing in particular.
    Nothing,
    /// What a tool says.
    Text(String),
    /// The slots that a tool shows.
    Slots(Vec<TimelineSlot>),
    /// What the caller of a tool did wrong.
    ToolError(String),
    /// That the request failed.
    Failure { code: i32, message: String },
}

/// A reply as a value of the specification.
pub enum ReplyView {
    Welcome { protocol_version: Seq<char>, server_name: Seq<char>, server_version: Seq<char> },
    Tools(Seq<ToolView>),
    NoPrompts,
    Nothing,
    Text(Seq<char>),
    Slots(Seq<SlotView>),
    ToolError(Seq<char>),
    Failure { code: i32, message: Seq<char> },
}

impl View for Reply {
    type V = ReplyView;

    open spec fn view(&self) -> ReplyView {
        match *self {
            Reply::Welcome { protocol_version, server_name, server_version } => ReplyView::Welcome {
                protocol_version: protocol_version@,
                server_name: server_name@,
                server_version: server_version@,
            },
            Reply::Tools(tools) => ReplyView::Tools(tool_views(tools@)),
            Reply::NoPrompts => ReplyView::NoPrompts,
            Reply::Nothing => ReplyView::Nothing,
            Reply::Text(text) => ReplyView::Text(text@),
            Reply::Slots(slots) => ReplyView::Slots(views(slots@)),
            Reply::ToolError(text) => ReplyView::ToolError(text@),
            Reply::Failure { code, message } => ReplyView::Failure { code, message: message@ },
        }
    }
}

/// The failure of a tool.
pub open spec fn internal_error(message: Seq<char>) -> ReplyView {
    ReplyView::Failure { code: INTERNAL_ERROR, message }
}

/// What the failure of a tool starts with.
pub open spec fn trouble_prefix(tool: Seq<char>) -> Seq<char> {
    if tool == RECORD_STATE@ {
        "Record failed: "@
    } else if tool == TIME_TRAVEL@ {
        "Time travel failed: "@
    } else if tool == GET_HISTORY@ {
        "Failed to get timeline: "@
    } else if tool == SEARCH_MEMORY@ {
        "Search failed: "@
    } else if tool == SUMMARIZE_SESSION@ {
        "Summarize failed: "@
    } else if tool == FETCH_CONTEXT@ {
        "Fetch context failed: "@
    } else if tool == REVOKE_FUTURE@ {
        "Revoke failed: "@
    } else {
        ""@
    }
}

/// The failure of a tool for the given reason.
pub open spec fn trouble(tool: Seq<char>, reason: Seq<char>) -> ReplyView {
    internal_error(trouble_prefix(tool) + reason)
}

/// The memory and the reply after a request.
pub struct Turn {
    pub state: State,
    pub reply: ReplyView,
}

/// A turn that ends with the given memory and reply.
pub open spec fn turn(state: State, reply: ReplyView) -> Turn {
    Turn { state, reply }
}

/// A request for time travel that asks for nothing.
pub open spec fn blank_travel() -> ArgsView {
    ArgsView {
        session_id: None,
        target_timeline_ids: seq![],
        learning: seq![],
        raw_log_excerpt: seq![],
        constraint_type: None,
    }
}

impl ArgumentsView {
    /// The session that is meant.
    pub open spec fn session(self) -> Seq<char> {
        match self.session_id {
            Some(session) => session,
            None => DEFAULT_SESSION@,
        }
    }

    /// The request for time travel that is meant.
    pub open spec fn travel_request(self) -> ArgsView {
        match self.travel {
            Some(args) => args,
            None => blank_travel(),
        }
    }

    /// What is searched for.
    pub open spec fn search_text(self) -> Seq<char> {
        match self.query {
            Some(query) => trim(query),
            None => seq![],
        }
    }

    /// How many slots are to be shown, `default` where nothing is said.
    pub open spec fn limit_or(self, default: i64) -> i64 {
        match self.limit {
            Some(n) => n,
            None => default,
        }
    }

    /// The slot that is meant, or 0.
    pub open spec fn slot_id(self) -> i64 {
        match self.timeline_id {
            Some(id) => id,
            None => 0,
        }
    }

    /// Whether there is a log to record.
    pub open spec fn has_log(self) -> bool {
        self.raw_log is Some && trim(self.raw_log->0).len() > 0
    }
}

/// What is said of a recorded log.
pub open spec fn recorded_text(content_id: int, session: Seq<char>) -> Seq<char> {
    "📝 [VLK RECORD] PRESENT state recorded as content_id="@ + decimal(content_id) + " in session '"@
        + session + "'"@
}

/// What is said of time travel.
pub open spec fn travelled_text(tokens_saved: int, lesson: Seq<char>) -> Seq<char> {
    "🧠 [VLK CHRONESTHESIA] Transitioned timeline slots to PAST (~"@ + decimal(tokens_saved)
        + " tokens saved). FUTURE constraint injected:\n---\n"@ + lesson
        + "\n---\nThese lessons will be prefixed as [PREVENTIVE FUTURE CONSTRAINT] in subsequent context fetches. Old raw logs are archived and will no longer consume context."@
}

/// What is said of a revoked constraint.
pub open spec fn revoked_text(id: int) -> Seq<char> {
    "🗑️ [VLK REVOKE] FUTURE constraint #"@ + decimal(id)
        + " revoked (moved to PAST). It will no longer appear in active context."@
}

/// What is said of a constraint that there is not.
pub open spec fn not_revoked_text(id: int, session: Seq<char>) -> Seq<char> {
    "No FUTURE constraint found with id #"@ + decimal(id) + " in session '"@ + session + "'."@
}

/// Recording a log.
pub open spec fn record_turn(state: State, arguments: ArgumentsView) -> Turn {
    if !arguments.has_log() {
        turn(state, internal_error("Field 'raw_log' is required."@))
    } else {
        turn(
            recorded(
                state,
                arguments.session(),
                arguments.raw_log->0,
                arguments.file_context,
                arguments.tool_payload,
            ),
            ReplyView::Text(recorded_text(state.next_content_id, arguments.session())),
        )
    }
}

/// Time travel.
pub open spec fn travel_turn(state: State, arguments: ArgumentsView) -> Turn {
    let args = arguments.travel_request();
    match args.refusal() {
        Some(refusal) => turn(state, trouble(TIME_TRAVEL@, refusal.message())),
        None => turn(
            travelled(state, args),
            ReplyView::Text(
                travelled_text(
                    estimated_tokens(total_weight(targets(state, args)) as int),
                    trim(args.learning),
                ),
            ),
        ),
    }
}

/// Searching.
pub open spec fn search_turn(state: State, arguments: ArgumentsView) -> Turn {
    let session = arguments.session();
    let query = arguments.search_text();
    let limit = arguments.limit_or(SEARCH_LIMIT) as int;
    if query.len() == 0 {
        turn(state, internal_error("Field 'query' is required."@))
    } else if search_fails(state, session, query, limit) {
        turn(
            state,
            trouble(
                SEARCH_MEMORY@,
                "error returned from database: (code: 1) LIKE or GLOB pattern too complex"@,
            ),
        )
    } else {
        turn(state, ReplyView::Slots(search(state, session, query, limit)))
    }
}

/// Fetching the clean context.
pub open spec fn fetch_turn(state: State, arguments: ArgumentsView) -> Turn {
    let session = arguments.session();
    let clean = cleaned(state, session);
    turn(clean, ReplyView::Text(annotated_context(clean, session)))
}

/// Revoking a constraint.
pub open spec fn revoke_turn(state: State, arguments: ArgumentsView) -> Turn {
    let session = arguments.session();
    let id = arguments.slot_id();
    if id == 0 {
        turn(state, internal_error("Field 'timeline_id' is required."@))
    } else if has_constraint(state, session, id) {
        turn(revoked(state, session, id), ReplyView::Text(revoked_text(id as int)))
    } else {
        turn(state, internal_error(not_revoked_text(id as int, session)))
    }
}

/// Calling a tool.
pub open spec fn tool_turn(state: State, tool: Seq<char>, arguments: ArgumentsView) -> Turn {
    if tool == RECORD_STATE@ {
        record_turn(state, arguments)
    } else if tool == TIME_TRAVEL@ {
        travel_turn(state, arguments)
    } else if tool == GET_HISTORY@ {
        turn(
            state,
            ReplyView::Slots(
                history(state, arguments.session(), arguments.limit_or(HISTORY_LIMIT) as int),
            ),
        )
    } else if tool == SEARCH_MEMORY@ {
        search_turn(state, arguments)
    } else if tool == SUMMARIZE_SESSION@ {
        turn(state, ReplyView::Text(summary(state, arguments.session())))
    } else if tool == FETCH_CONTEXT@ {
        fetch_turn(state, arguments)
    } else if tool == REVOKE_FUTURE@ {
        revoke_turn(state, arguments)
    } else {
        turn(state, ReplyView::ToolError("Unknown tool: "@ + tool))
    }
}

/// Answering a request.
pub open spec fn answered(state: State, request: RequestView) -> Turn {
    let method = request.method;
    if method == "initialize"@ {
        turn(
            state,
            ReplyView::Welcome {
                protocol_version: PROTOCOL_VERSION@,
                server_name: SERVER_NAME@,
                server_version: SERVER_VERSION@,
            },
        )
    } else if method == "tools/list"@ {
        turn(state, ReplyView::Tools(offered_tools()))
    } else if method == "tools/call"@ {
        tool_turn(state, request.tool, request.arguments)
    } else if method == "prompts/list"@ {
        turn(state, ReplyView::NoPrompts)
    } else if method == "notifications/initialized"@ {
        turn(state, ReplyView::Nothing)
    } else {
        turn(
            state,
            ReplyView::Failure {
                code: METHOD_NOT_FOUND,
                message: "Method not found: "@ + method,
            },
        )
    }
}

/// Whether ids, positions and the measure of all logs last for a request.
pub open spec fn has_means(state: State, request: RequestView) -> bool {
    let tool = request.tool;
    let arguments = request.arguments;
    request.method == "tools/call"@ ==> {
        if tool == RECORD_STATE@ {
            arguments.has_log() ==> state.takes(arguments.raw_log->0)
        } else if tool == TIME_TRAVEL@ {
            arguments.travel_request().refusal() is None ==> state.room(1)
        } else if tool == FETCH_CONTEXT@ {
            state.room(present_logs(state, arguments.session()).len() as int + 1)
        } else {
            true
        }
    }
}

/// The session that the arguments name, or else the default one.
pub fn get_session_id(arguments: &ToolArguments) -> (session: String)
    ensures
        session@ == arguments@.session(),
{
    match &arguments.session_id {
        Some(session) => session.clone(),
        None => DEFAULT_SESSION.to_owned(),
    }
}

/// The session that a request works on.
pub open spec fn session_meant(request: RequestView) -> Seq<char> {
    if request.tool == TIME_TRAVEL@ {
        request.arguments.travel_request().session()
    } else {
        request.arguments.session()
    }
}

/// The session whose timeline a request needs.
pub fn session_of(request: &Request) -> (session: String)
    ensures
        session@ == session_meant(request@),
{
    if same_text(request.tool.as_str(), TIME_TRAVEL) {
        match &request.arguments.travel {
            Some(TimeTravelArgs { session_id: Some(session), .. }) => session.clone(),
            _ => DEFAULT_SESSION.to_owned(),
        }
    } else {
        get_session_id(&request.arguments)
    }
}

/// Whether a memory has the means to serve a request: ids, positions and the measure of all logs last
/// for it.
pub fn can_serve(memory: &Memory, request: &Request) -> (yes: bool)
    requires
        memory@.valid(),
    ensures
        yes == has_means(memory@, request@),
{
    let tool = request.tool.as_str();
    if !same_text(request.method.as_str(), "tools/call") {
        return true;
    }
    if same_text(tool, RECORD_STATE) {
        match &request.arguments.raw_log {
            None => true,
            Some(log) => trimmed_text(log.as_str()).as_str().is_empty() || memory.can_record(log.as_str()),
        }
    } else if same_text(tool, TIME_TRAVEL) {
        match &request.arguments.travel {
            None => {
                assert(trim(Seq::<char>::empty()).len() == 0);
                true
            },
            Some(args) => refuse(args).is_some() || memory.has_room(1),
        }
    } else if same_text(tool, FETCH_CONTEXT) {
        let session = get_session_id(&request.arguments);
        let selection = Selection {
            session: session.as_str(),
            state: Some(PRESENT),
            ids: None,
            logged: true,
        };
        let at = memory.find(&selection);
        let logs: u64 = at.len() as u64;
        assert(at_places(memory@.slots, at@).reverse() == present_logs(
            memory@,
            request@.arguments.session(),
        ));
        logs < i64::MAX as u64 && memory.has_room(logs + 1)
    } else {
        true
    }
}

/// The failure of a tool.
fn failure(message: String) -> (reply: Reply)
    ensures
        reply@ == internal_error(message@),
{
    Reply::Failure { code: INTERNAL_ERROR, message }
}

/// The failure of a tool for a reason that the store gives.
pub fn tool_failure(tool: &str, reason: &str) -> (reply: Reply)
    ensures
        reply@ == trouble(tool@, reason@),
{
    let start = if same_text(tool, RECORD_STATE) {
        "Record failed: "
    } else if same_text(tool, TIME_TRAVEL) {
        "Time travel failed: "
    } else if same_text(tool, GET_HISTORY) {
        "Failed to get timeline: "
    } else if same_text(tool, SEARCH_MEMORY) {
        "Search failed: "
    } else if same_text(tool, SUMMARIZE_SESSION) {
        "Summarize failed: "
    } else if same_text(tool, FETCH_CONTEXT) {
        "Fetch context failed: "
    } else if same_text(tool, REVOKE_FUTURE) {
        "Revoke failed: "
    } else {
        ""
    };
    failure(pair(start, reason))
}

/// What a request is answered that cannot be read.
pub fn parse_failure(reason: &str) -> (reply: Reply)
    ensures
        reply@ == (ReplyView::Failure { code: PARSE_ERROR, message: reason@ }),
{
    Reply::Failure { code: PARSE_ERROR, message: reason.to_owned() }
}

/// A string that may be missing, as a reference.
fn borrowed(s: &Option<String>) -> (t: Option<&str>)
    ensures
        given(t) == shown(*s),
{
    match s {
        None => None,
        Some(text) => Some(text.as_str()),
    }
}

/// `record_turn` on a memory.
fn record(memory: &mut Memory, arguments: &ToolArguments) -> (reply: Reply)
    requires
        old(memory)@.valid(),
        arguments@.has_log() ==> old(memory)@.takes(arguments@.raw_log->0),
    ensures
        final(memory)@.valid(),
        turn(final(memory)@, reply@) == record_turn(old(memory)@, arguments@),
{
    let session = get_session_id(arguments);
    let blank = match &arguments.raw_log {
        None => true,
        Some(log) => trimmed_text(log.as_str()).as_str().is_empty(),
    };
    if blank {
        return failure("Field 'raw_log' is required.".to_owned());
    }
    match &arguments.raw_log {
        None => failure("Field 'raw_log' is required.".to_owned()),
        Some(log) => {
            let id: i64 = record_present_state(
                memory,
                session.as_str(),
                log.as_str(),
                borrowed(&arguments.file_context),
                borrowed(&arguments.tool_payload),
            );
            let mut text = "📝 [VLK RECORD] PRESENT state recorded as content_id=".to_owned();
            push_decimal(&mut text, id);
            text.append(" in session '");
            text.append(session.as_str());
            text.append("'");
            Reply::Text(text)
        },
    }
}

/// `travel_turn` on a memory.
fn travel(memory: &mut Memory, arguments: ToolArguments) -> (reply: Reply)
    requires
        old(memory)@.valid(),
        arguments@.travel_request().refusal() is None ==> old(memory)@.room(1),
    ensures
        final(memory)@.valid(),
        turn(final(memory)@, reply@) == travel_turn(old(memory)@, arguments@),
{
    proof {
        reveal_strlit("");
    }
    let ghost meant = arguments@.travel_request();
    let args = match arguments.travel {
        Some(args) => args,
        None => TimeTravelArgs {
            session_id: None,
            target_timeline_ids: Vec::new(),
            learning: String::new(),
            raw_log_excerpt: String::new(),
            constraint_type: None,
        },
    };
    assert(args@ == meant) by {
        assert(args@.target_timeline_ids =~= meant.target_timeline_ids);
        assert(args@.learning =~= meant.learning);
        assert(args@.raw_log_excerpt =~= meant.raw_log_excerpt);
    }
    match execute_time_travel(memory, args) {
        Ok((tokens_saved, learning)) => {
            let mut text = "🧠 [VLK CHRONESTHESIA] Transitioned timeline slots to PAST (~".to_owned();
            push_decimal(&mut text, tokens_saved);
            text.append(" tokens saved). FUTURE constraint injected:\n---\n");
            text.append(learning.as_str());
            text.append(
                "\n---\nThese lessons will be prefixed as [PREVENTIVE FUTURE CONSTRAINT] in subsequent context fetches. Old raw logs are archived and will no longer consume context.",
            );
            Reply::Text(text)
        },
        Err(error) => tool_failure(TIME_TRAVEL, error.message().as_str()),
    }
}

/// `search_turn` on a memory.
fn search_for(memory: &Memory, arguments: &ToolArguments) -> (reply: Reply)
    ensures
        turn(memory@, reply@) == search_turn(memory@, arguments@),
{
    let session = get_session_id(arguments);
    let query = match &arguments.query {
        Some(query) => trimmed_text(query.as_str()),
        None => String::new(),
    };
    assert(query@ =~= arguments@.search_text());
    let limit: i64 = match arguments.limit {
        Some(n) => n,
        None => SEARCH_LIMIT,
    };
    if query.as_str().is_empty() {
        return failure("Field 'query' is required.".to_owned());
    }
    match search_timeline(memory, session.as_str(), query.as_str(), limit) {
        Ok(slots) => Reply::Slots(slots),
        Err(error) => tool_failure(SEARCH_MEMORY, error.message().as_str()),
    }
}

/// `revoke_turn` on a memory.
fn revoke(memory: &mut Memory, arguments: &ToolArguments) -> (reply: Reply)
    requires
        old(memory)@.valid(),
    ensures
        final(memory)@.valid(),
        turn(final(memory)@, reply@) == revoke_turn(old(memory)@, arguments@),
{
    let session = get_session_id(arguments);
    let id: i64 = match arguments.timeline_id {
        Some(id) => id,
        None => 0,
    };
    if id == 0 {
        return failure("Field 'timeline_id' is required.".to_owned());
    }
    if revoke_future_constraint(memory, session.as_str(), id) {
        let mut text = "🗑️ [VLK REVOKE] FUTURE constraint #".to_owned();
        push_decimal(&mut text, id);
        text.append(" revoked (moved to PAST). It will no longer appear in active context.");
        Reply::Text(text)
    } else {
        let mut text = "No FUTURE constraint found with id #".to_owned();
        push_decimal(&mut text, id);
        text.append(" in session '");
        text.append(session.as_str());
        text.append("'.");
        failure(text)
    }
}

/// Calls a tool.
fn call(memory: &mut Memory, request: Request) -> (reply: Reply)
    requires
        old(memory)@.valid(),
        request@.method == "tools/call"@,
        has_means(old(memory)@, request@),
    ensures
        final(memory)@.valid(),
        turn(final(memory)@, reply@) == tool_turn(
            old(memory)@,
            request@.tool,
            request@.arguments,
        ),
{
    let tool = request.tool.as_str();
    if same_text(tool, RECORD_STATE) {
        record(memory, &request.arguments)
    } else if same_text(tool, TIME_TRAVEL) {
        travel(memory, request.arguments)
    } else if same_text(tool, GET_HISTORY) {
        let session = get_session_id(&request.arguments);
        let limit: i64 = match request.arguments.limit {
            Some(n) => n,
            None => HISTORY_LIMIT,
        };
        Reply::Slots(get_timeline(memory, session.as_str(), limit))
    } else if same_text(tool, SEARCH_MEMORY) {
        search_for(memory, &request.arguments)
    } else if same_text(tool, SUMMARIZE_SESSION) {
        let session = get_session_id(&request.arguments);
        Reply::Text(get_session_summary(memory, session.as_str()))
    } else if same_text(tool, FETCH_CONTEXT) {
        let session = get_session_id(&request.arguments);
        Reply::Text(fetch_clean_context(memory, session.as_str()))
    } else if same_text(tool, REVOKE_FUTURE) {
        revoke(memory, &request.arguments)
    } else {
        Reply::ToolError(pair("Unknown tool: ", tool))
    }
}

/// Answers a request.
pub fn handle(memory: &mut Memory, request: Request) -> (reply: Reply)
    requires
        old(memory)@.valid(),
        has_means(old(memory)@, request@),
    ensures
        final(memory)@.valid(),
        turn(final(memory)@, reply@) == answered(
            old(memory)@,
            request@,
        ),
{
    let method = request.method.as_str();
    if same_text(method, "initialize") {
        Reply::Welcome {
            protocol_version: PROTOCOL_VERSION,
            server_name: SERVER_NAME,
            server_version: SERVER_VERSION,
        }
    } else if same_text(method, "tools/list") {
        Reply::Tools(tool_definitions())
    } else if same_text(method, "tools/call") {
        call(memory, request)
    } else if same_text(method, "prompts/list") {
        Reply::NoPrompts
    } else if same_text(method, "notifications/initialized") {
        Reply::Nothing
    } else {
        Reply::Failure { code: METHOD_NOT_FOUND, message: pair("Method not found: ", method) }
    }
}

} // verus!

//! The tools that the server offers.
use vstd::prelude::*;
use crate::slot::{DERIVED, PROSPECTIVE};
use crate::text::names;

verus! {

/// Records a log as a slot of the present.
pub const RECORD_STATE: &'static str = "vlk_record_state";

/// Moves slots to the past and injects a constraint.
pub const TIME_TRAVEL: &'static str = "vlk_time_travel";

/// Shows a session's whole timeline.
pub const GET_HISTORY: &'static str = "vlk_get_history";

/// Searches a session's timeline.
pub const SEARCH_MEMORY: &'static str = "vlk_search_memory";

/// Counts a session's slots.
pub const SUMMARIZE_SESSION: &'static str = "vlk_summarize_session";

/// Shows a session's clean context.
pub const FETCH_CONTEXT: &'static str = "vlk_fetch_context";

/// Revokes a constraint.
pub const REVOKE_FUTURE: &'static str = "vlk_revoke_future";

/// A property of a tool's input.
#[derive(Debug)]
pub struct Property {
    pub name: &'static str,
    /// The JSON type.
    pub kind: &'static str,
    /// The JSON type of the items of an array.
    pub items: Option<&'static str>,
    /// The values that are accepted, where not all are.
    pub choices: Vec<&'static str>,
    /// The value that counts where none is given.
    pub default: Option<i64>,
    pub description: &'static str,
}

/// A property as a value of the specification.
#[verifier::ext_equal]
pub struct PropertyView {
    pub name: Seq<char>,
    pub kind: Seq<char>,
    pub items: Option<Seq<char>>,
    pub choices: Seq<Seq<char>>,
    pub default: Option<i64>,
    pub description: Seq<char>,
}

impl View for Property {
    type V = PropertyView;

    open spec fn view(&self) -> PropertyView {
        PropertyView {
            name: self.name@,
            kind: self.kind@,
            items: match self.items {
                None => None,
                Some(kind) => Some(kind@),
            },
            choices: names(self.choices@),
            default: self.default,
            description: self.description@,
        }
    }
}

/// A tool.
#[derive(Debug)]
pub struct Tool {
    pub name: &'static str,
    pub description: &'static str,
    pub properties: Vec<Property>,
    /// The properties that must be given.
    pub required: Vec<&'static str>,
}

/// A tool as a value of the specification.
#[verifier::ext_equal]
pub struct ToolView {
    pub name: Seq<char>,
    pub description: Seq<char>,
    pub properties: Seq<PropertyView>,
    pub required: Seq<Seq<char>>,
}

/// The properties of a list.
pub open spec fn property_views(properties: Seq<Property>) -> Seq<PropertyView> {
    Seq::new(properties.len(), |i: int| properties[i]@)
}

impl View for Tool {
    type V = ToolView;

    open spec fn view(&self) -> ToolView {
        ToolView {
            name: self.name@,
            description: self.description@,
            properties: property_views(self.properties@),
            required: names(self.required@),
        }
    }
}

/// The tools of a list.
pub open spec fn tool_views(tools: Seq<Tool>) -> Seq<ToolView> {
    Seq::new(tools.len(), |i: int| tools[i]@)
}

/// A property of the given JSON type, with nothing more to say than its description.
pub open spec fn simple_property(name: Seq<char>, kind: Seq<char>, description: Seq<char>) -> PropertyView {
    PropertyView { name, kind, items: None, choices: seq![], default: None, description }
}

/// The property that names the session.
pub open spec fn session_property() -> PropertyView {
    simple_property("session_id"@, "string"@, "Optional. Defaults to 'default'."@)
}

/// The property that bounds the number of results.
pub open spec fn limit_property(default: i64, description: Seq<char>) -> PropertyView {
    PropertyView {
        default: Some(default),
        ..simple_property("limit"@, "integer"@, description)
    }
}

/// The tool that records a log.
pub open spec fn record_state_tool() -> ToolView {
    ToolView {
        name: RECORD_STATE@,
        description: "Push an error, log, or observation into memory as a PRESENT timeline slot. Recorded slots are what loop detection and vlk_time_travel operate on."@,
        properties: seq![
            session_property(),
            simple_property("raw_log"@, "string"@, "The error, stacktrace, or observation to record."@),
            simple_property("file_context"@, "string"@, "Optional. Source file location."@),
            simple_property("tool_payload"@, "string"@, "Optional. Serialized tool call."@),
        ],
        required: seq!["raw_log"@],
    }
}

/// The tool for time travel.
pub open spec fn time_travel_tool() -> ToolView {
    ToolView {
        name: TIME_TRAVEL@,
        description: "Chronesthetic memory management. Transitions PRESENT timeline slots to PAST and injects a FUTURE constraint. Use when stuck in a failure loop or context is cluttered. Check vlk_get_history for [timeline:N] IDs. Requires raw_log_excerpt as evidence — the original error/log that grounds this lesson."@,
        properties: seq![
            session_property(),
            PropertyView {
                items: Some("integer"@),
                ..simple_property(
                    "target_timeline_ids"@,
                    "array"@,
                    "Timeline slot IDs (PRESENT) to transition to PAST. Listed in vlk_get_history output."@,
                )
            },
            simple_property(
                "learning"@,
                "string"@,
                "Lesson learned — injected as a FUTURE constraint in place of the archived slots."@,
            ),
            simple_property(
                "raw_log_excerpt"@,
                "string"@,
                "REQUIRED. 1-2 sentences of the original error/log that grounds this lesson in evidence. Prevents unverified constraints."@,
            ),
            PropertyView {
                choices: seq![DERIVED@, PROSPECTIVE@],
                ..simple_property(
                    "constraint_type"@,
                    "string"@,
                    "Origin of the constraint. DERIVED (default): scar tissue from failure. PROSPECTIVE: genuine foresight (deadlines, maintenance windows)."@,
                )
            },
        ],
        required: seq!["target_timeline_ids"@, "learning"@, "raw_log_excerpt"@],
    }
}

/// The tool that shows the timeline.
pub open spec fn get_history_tool() -> ToolView {
    ToolView {
        name: GET_HISTORY@,
        description: "Returns the full timeline for a session including temporal state (PRESENT/PAST/FUTURE), content excerpts, and timeline IDs. Use to audit context or find IDs for vlk_time_travel."@,
        properties: seq![session_property(), limit_property(50, "Max records to return."@)],
        required: seq![],
    }
}

/// The tool that searches.
pub open spec fn search_memory_tool() -> ToolView {
    ToolView {
        name: SEARCH_MEMORY@,
        description: "Search timeline by keyword across raw logs and learning summaries. Useful for retrieving specific facts, errors, or past decisions."@,
        properties: seq![
            session_property(),
            simple_property("query"@, "string"@, "Keyword or phrase to search for."@),
            limit_property(20, "Max results."@),
        ],
        required: seq!["query"@],
    }
}

/// The tool that counts.
pub open spec fn summarize_session_tool() -> ToolView {
    ToolView {
        name: SUMMARIZE_SESSION@,
        description: "Returns a condensed summary of session memory with counts of PRESENT (active), PAST (archived), and FUTURE (constraint) timeline slots."@,
        properties: seq![session_property()],
        required: seq![],
    }
}

/// The tool that shows the clean context.
pub open spec fn fetch_context_tool() -> ToolView {
    ToolView {
        name: FETCH_CONTEXT@,
        description: "Returns the clean active context (PRESENT + FUTURE only). Automatically detects and mitigates error loops: if the same error repeats 3+ times, it's archived as PAST and a SYSTEM ANCHOR constraint is injected. Also consolidates FUTURE constraints when they exceed 5+ entries and detects conflicting directives. Call this before each agent iteration."@,
        properties: seq![session_property()],
        required: seq![],
    }
}

/// The tool that revokes.
pub open spec fn revoke_future_tool() -> ToolView {
    ToolView {
        name: REVOKE_FUTURE@,
        description: "Revoke a FUTURE constraint by moving it to PAST. Use this when a constraint was incorrectly learned or is no longer applicable. Find the timeline ID via vlk_get_history."@,
        properties: seq![
            session_property(),
            simple_property(
                "timeline_id"@,
                "integer"@,
                "The timeline slot ID (FUTURE state) to revoke."@,
            ),
        ],
        required: seq!["timeline_id"@],
    }
}

/// The tools that the server offers.
pub open spec fn offered_tools() -> Seq<ToolView> {
    seq![
        record_state_tool(),
        time_travel_tool(),
        get_history_tool(),
        search_memory_tool(),
        summarize_session_tool(),
        fetch_context_tool(),
        revoke_future_tool(),
    ]
}

/// `simple_property` as a value.
fn simple(name: &'static str, kind: &'static str, description: &'static str) -> (property: Property)
    ensures
        property@ == simple_property(name@, kind@, description@),
{
    let property = Property {
        name,
        kind,
        items: None,
        choices: Vec::new(),
        default: None,
        description,
    };
    assert(names(property.choices@) =~= seq![]);
    property
}

/// `session_property` as a value.
fn session() -> (property: Property)
    ensures
        property@ == session_property(),
{
    simple("session_id", "string", "Optional. Defaults to 'default'.")
}

/// `limit_property` as a value.
fn limit(default: i64, description: &'static str) -> (property: Property)
    ensures
        property@ == limit_property(default, description@),
{
    let property = Property {
        name: "limit",
        kind: "integer",
        items: None,
        choices: Vec::new(),
        default: Some(default),
        description,
    };
    assert(names(property.choices@) =~= seq![]);
    property
}

/// `record_state_tool` as a value.
fn record_state() -> (tool: Tool)
    ensures
        tool@ == record_state_tool(),
{
    let tool = Tool {
        name: RECORD_STATE,
        description: "Push an error, log, or observation into memory as a PRESENT timeline slot. Recorded slots are what loop detection and vlk_time_travel operate on.",
        properties: vec![
            session(),
            simple("raw_log", "string", "The error, stacktrace, or observation to record."),
            simple("file_context", "string", "Optional. Source file location."),
            simple("tool_payload", "string", "Optional. Serialized tool call."),
        ],
        required: vec!["raw_log"],
    };
    assert(property_views(tool.properties@) =~= record_state_tool().properties);
    assert(names(tool.required@) =~= record_state_tool().required);
    tool
}

/// `time_travel_tool` as a value.
fn time_travel() -> (tool: Tool)
    ensures
        tool@ == time_travel_tool(),
{
    let targets = Property {
        name: "target_timeline_ids",
        kind: "array",
        items: Some("integer"),
        choices: Vec::new(),
        default: None,
        description: "Timeline slot IDs (PRESENT) to transition to PAST. Listed in vlk_get_history output.",
    };
    assert(names(targets.choices@) =~= seq![]);
    let origin = Property {
        name: "constraint_type",
        kind: "string",
        items: None,
        choices: vec![DERIVED, PROSPECTIVE],
        default: None,
        description: "Origin of the constraint. DERIVED (default): scar tissue from failure. PROSPECTIVE: genuine foresight (deadlines, maintenance windows).",
    };
    assert(names(origin.choices@) =~= seq![DERIVED@, PROSPECTIVE@]);
    let tool = Tool {
        name: TIME_TRAVEL,
        description: "Chronesthetic memory management. Transitions PRESENT timeline slots to PAST and injects a FUTURE constraint. Use when stuck in a failure loop or context is cluttered. Check vlk_get_history for [timeline:N] IDs. Requires raw_log_excerpt as evidence — the original error/log that grounds this lesson.",
        properties: vec![
            session(),
            targets,
            simple(
                "learning",
                "string",
                "Lesson learned — injected as a FUTURE constraint in place of the archived slots.",
            ),
            simple(
                "raw_log_excerpt",
                "string",
                "REQUIRED. 1-2 sentences of the original error/log that grounds this lesson in evidence. Prevents unverified constraints.",
            ),
            origin,
        ],
        required: vec!["target_timeline_ids", "learning", "raw_log_excerpt"],
    };
    assert(property_views(tool.properties@) =~= time_travel_tool().properties);
    assert(names(tool.required@) =~= time_travel_tool().required);
    tool
}

/// `get_history_tool` as a value.
fn get_history() -> (tool: Tool)
    ensures
        tool@ == get_history_tool(),
{
    let tool = Tool {
        name: GET_HISTORY,
        description: "Returns the full timeline for a session including temporal state (PRESENT/PAST/FUTURE), content excerpts, and timeline IDs. Use to audit context or find IDs for vlk_time_travel.",
        properties: vec![session(), limit(50, "Max records to return.")],
        required: Vec::new(),
    };
    assert(property_views(tool.properties@) =~= get_history_tool().properties);
    assert(names(tool.required@) =~= get_history_tool().required);
    tool
}

/// `search_memory_tool` as a value.
fn search_memory() -> (tool: Tool)
    ensures
        tool@ == search_memory_tool(),
{
    let tool = Tool {
        name: SEARCH_MEMORY,
        description: "Search timeline by keyword across raw logs and learning summaries. Useful for retrieving specific facts, errors, or past decisions.",
        properties: vec![
            session(),
            simple("query", "string", "Keyword or phrase to search for."),
            limit(20, "Max results."),
        ],
        required: vec!["query"],
    };
    assert(property_views(tool.properties@) =~= search_memory_tool().properties);
    assert(names(tool.required@) =~= search_memory_tool().required);
    tool
}

/// `summarize_session_tool` as a value.
fn summarize_session() -> (tool: Tool)
    ensures
        tool@ == summarize_session_tool(),
{
    let tool = Tool {
        name: SUMMARIZE_SESSION,
        description: "Returns a condensed summary of session memory with counts of PRESENT (active), PAST (archived), and FUTURE (constraint) timeline slots.",
        properties: vec![session()],
        required: Vec::new(),
    };
    assert(property_views(tool.properties@) =~= summarize_session_tool().properties);
    assert(names(tool.required@) =~= summarize_session_tool().required);
    tool
}

/// `fetch_context_tool` as a value.
fn fetch_context() -> (tool: Tool)
    ensures
        tool@ == fetch_context_tool(),
{
    let tool = Tool {
        name: FETCH_CONTEXT,
        description: "Returns the clean active context (PRESENT + FUTURE only). Automatically detects and mitigates error loops: if the same error repeats 3+ times, it's archived as PAST and a SYSTEM ANCHOR constraint is injected. Also consolidates FUTURE constraints when they exceed 5+ entries and detects conflicting directives. Call this before each agent iteration.",
        properties: vec![session()],
        required: Vec::new(),
    };
    assert(property_views(tool.properties@) =~= fetch_context_tool().properties);
    assert(names(tool.required@) =~= fetch_context_tool().required);
    tool
}

/// `revoke_future_tool` as a value.
fn revoke_future() -> (tool: Tool)
    ensures
        tool@ == revoke_future_tool(),
{
    let tool = Tool {
        name: REVOKE_FUTURE,
        description: "Revoke a FUTURE constraint by moving it to PAST. Use this when a constraint was incorrectly learned or is no longer applicable. Find the timeline ID via vlk_get_history.",
        properties: vec![
            session(),
            simple("timeline_id", "integer", "The timeline slot ID (FUTURE state) to revoke."),
        ],
        required: vec!["timeline_id"],
    };
    assert(property_views(tool.properties@) =~= revoke_future_tool().properties);
    assert(names(tool.required@) =~= revoke_future_tool().required);
    tool
}

/// The tools that the server offers.
pub fn tool_definitions() -> (tools: Vec<Tool>)
    ensures
        tool_views(tools@) == offered_tools(),
{
    let tools = vec![
        record_state(),
        time_travel(),
        get_history(),
        search_memory(),
        summarize_session(),
        fetch_context(),
        revoke_future(),
    ];
    assert(tool_views(tools@) =~= offered_tools());
    tools
}

} // verus!

//! Recording what the agent runs into.
use vstd::prelude::*;
use crate::memory::{ChangeView, ContentView, Memory, State};
use crate::text::given;

verus! {

/// The memory after a log has been recorded: its content is stored, and the session gets a `PRESENT`
/// slot for it.
pub open spec fn recorded(
    state: State,
    session: Seq<char>,
    raw_log: Seq<char>,
    file_context: Option<Seq<char>>,
    tool_payload: Option<Seq<char>>,
) -> State {
    let id = state.next_content_id as i64;
    let content = ContentView { id, raw_log, file_context, tool_payload };
    let slot = state.present_slot(session, id, raw_log, file_context);
    state.step(ChangeView::StoreContent(content)).step(ChangeView::InsertSlot(slot))
}

/// Stores content and creates a `PRESENT` slot for it in the session's timeline. Returns the
/// content's id, which no slot has referred to and no content has had before.
pub fn record_present_state(
    memory: &mut Memory,
    session_id: &str,
    raw_log: &str,
    file_context: Option<&str>,
    tool_payload: Option<&str>,
) -> (content_id: i64)
    requires
        old(memory)@.valid(),
        old(memory)@.takes(raw_log@),
    ensures
        content_id == old(memory)@.next_content_id,
        final(memory)@ == recorded(
            old(memory)@,
            session_id@,
            raw_log@,
            given(file_context),
            given(tool_payload),
        ),
        final(memory)@.valid(),
        forall|i: int|
            0 <= i < old(memory)@.slots.len() ==> (#[trigger] old(memory)@.slots[i]).content_id != Some(
                content_id,
            ),
        forall|i: int|
            0 <= i < old(memory)@.journal.len() && (#[trigger] old(memory)@.journal[i]) is StoreContent
                ==> old(memory)@.journal[i]->StoreContent_0.id != content_id,
{
    let content_id: i64 = memory.store_content(raw_log, file_context, tool_payload);
    memory.insert_present(session_id, content_id, raw_log, file_context);
    content_id
}

} // verus!

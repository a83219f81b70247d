//! Revocation: a constraint that was wrongly learned moves to the past.
use vstd::prelude::*;
use crate::memory::{ChangeView, Memory, State};
use crate::slot::{
    at_places, ids_of, lemma_picked_is_selected, lemma_selected_picks, lemma_states_differ, selected, Query,
    Selection, SlotView, FUTURE,
};

verus! {

/// The constraints of a session that have the given id: one, or none.
pub open spec fn constraint_with(state: State, session: Seq<char>, id: i64) -> Seq<SlotView> {
    selected(state.slots, Query::in_state(session, FUTURE@).among(seq![id]))
}

/// Whether a session has a constraint with the given id.
pub open spec fn has_constraint(state: State, session: Seq<char>, id: i64) -> bool {
    exists|i: int|
        0 <= i < state.slots.len() && (#[trigger] state.slots[i]).id == id && state.slots[i].session_id
            == session && state.slots[i].temporal_state == FUTURE@
}

/// The memory after a constraint has been revoked, where the session has it.
pub open spec fn revoked(state: State, session: Seq<char>, id: i64) -> State {
    if has_constraint(state, session, id) {
        state.step(ChangeView::ArchiveSlots(ids_of(constraint_with(state, session, id))))
    } else {
        state
    }
}

/// A session has a constraint with an id exactly where it is selected by it.
proof fn lemma_constraint_with(state: State, session: Seq<char>, id: i64)
    ensures
        has_constraint(state, session, id) == (constraint_with(state, session, id).len() > 0),
{
    let query = Query::in_state(session, FUTURE@).among(seq![id]);
    let found = constraint_with(state, session, id);
    lemma_selected_picks(state.slots, query);
    if has_constraint(state, session, id) {
        let i = choose|i: int|
            0 <= i < state.slots.len() && (#[trigger] state.slots[i]).id == id
                && state.slots[i].session_id == session && state.slots[i].temporal_state == FUTURE@;
        assert(seq![id][0] == id);
        lemma_picked_is_selected(state.slots, query, i);
    }
    if found.len() > 0 {
        assert(query.picks(found[0]) && state.slots.contains(found[0]));
        let i = choose|i: int| 0 <= i < state.slots.len() && state.slots[i] == found[0];
        assert(state.slots[i].id == id);
    }
}

/// Revokes a constraint by moving it to the past. Returns whether the session had it.
pub fn revoke_future_constraint(memory: &mut Memory, session_id: &str, timeline_id: i64) -> (done: bool)
    requires
        old(memory)@.valid(),
    ensures
        final(memory)@.valid(),
        done == has_constraint(old(memory)@, session_id@, timeline_id),
        final(memory)@ == revoked(old(memory)@, session_id@, timeline_id),
{
    let wanted: Vec<i64> = vec![timeline_id];
    assert(wanted@ =~= seq![timeline_id]);
    let selection = Selection {
        session: session_id,
        state: Some(FUTURE),
        ids: Some(&wanted),
        logged: false,
    };
    let at = memory.find(&selection);
    assert(at_places(memory@.slots, at@) == constraint_with(memory@, session_id@, timeline_id));
    proof {
        lemma_constraint_with(memory@, session_id@, timeline_id);
    }
    if at.len() == 0 {
        return false;
    }
    let ids = memory.ids_at(&at);
    memory.archive(ids);
    true
}

/// A constraint can be revoked once: afterwards the session no longer has it.
pub proof fn lemma_revoked_once(state: State, session: Seq<char>, id: i64)
    ensures
        !has_constraint(revoked(state, session, id), session, id),
        revoked(revoked(state, session, id), session, id) == revoked(state, session, id),
{
    let after = revoked(state, session, id);
    if has_constraint(after, session, id) {
        let i = choose|i: int|
            0 <= i < after.slots.len() && (#[trigger] after.slots[i]).id == id
                && after.slots[i].session_id == session && after.slots[i].temporal_state == FUTURE@;
        lemma_states_differ();
        let query = Query::in_state(session, FUTURE@).among(seq![id]);
        assert(seq![id][0] == id);
        assert(state.slots[i].id == id);
        lemma_picked_is_selected(state.slots, query, i);
        let found = constraint_with(state, session, id);
        let k = choose|k: int| 0 <= k < found.len() && found[k] == state.slots[i];
        assert(ids_of(found)[k] == id);
        assert(false);
    }
}

} // verus!

//! What a context shows and what it does not.
use vstd::prelude::*;
use crate::consolidation::{
    consolidated, constraints, distinct_lessons_of, lessons_of, merged, merges, FUTURE_CONSOLIDATION_THRESHOLD,
};
use crate::conflicts::conflicts;
use crate::context::{active_context, annotated_context, cleaned, entries, entry, heading, warning_lines};
use crate::keywords::holds;
use crate::history::lemma_settled;
use crate::loops::{
    anchor, fingerprints, lemma_settled_has_no_loop, loop_in, mitigated, occurrences, present_logs, settled,
    trimmed_logs, LoopView, LOOP_THRESHOLD_DEFAULT,
};
use crate::memory::{
    archived, lemma_selected_archived, session_slots, ChangeView, ContentView, State,
};
use crate::record::recorded;
use crate::revocation::{constraint_with, has_constraint, revoked};
use crate::slot::{
    ids_of, lemma_picked_is_selected, lemma_selected_picks, lemma_selected_push, lemma_states_differ, selected,
    without, Query, SlotView, DERIVED, FUTURE, PAST, PRESENT,
};
use crate::text::trim;
use crate::timeline::{history, hit, search};
use crate::time_travel::{targets, travelled, ArgsView};

verus! {

/// Those of `slots` that are not past.
pub open spec fn live(slots: Seq<SlotView>) -> Seq<SlotView>
    decreases slots.len(),
{
    if slots.len() == 0 {
        seq![]
    } else if slots.last().temporal_state == PAST@ {
        live(slots.drop_last())
    } else {
        live(slots.drop_last()).push(slots.last())
    }
}

/// What is past does not show: a context is that of the slots which are not past.
pub proof fn lemma_past_is_hidden(state: State, session: Seq<char>)
    ensures
        active_context(state, session) == heading() + entries(live(session_slots(state, session))),
{
    lemma_entries_of_live(session_slots(state, session));
}

/// What the context says of slots is what it says of those that are not past.
proof fn lemma_entries_of_live(slots: Seq<SlotView>)
    ensures
        entries(slots) == entries(live(slots)),
    decreases slots.len(),
{
    lemma_states_differ();
    reveal_strlit("");
    if slots.len() > 0 {
        lemma_entries_of_live(slots.drop_last());
        let before = live(slots.drop_last());
        if slots.last().temporal_state == PAST@ {
            assert(entry(slots.last()) =~= seq![]);
            assert(entries(slots) =~= entries(before));
        } else {
            assert(before.push(slots.last()).drop_last() =~= before);
        }
    }
}

/// What the context says of slots after some were archived is what it says of the others.
proof fn lemma_entries_of_archived(slots: Seq<SlotView>, ids: Seq<i64>, session: Seq<char>)
    ensures
        entries(selected(archived(slots, ids), Query::all(session))) == entries(
            without(selected(slots, Query::all(session)), ids),
        ),
    decreases slots.len(),
{
    lemma_states_differ();
    reveal_strlit("");
    let query = Query::all(session);
    if slots.len() > 0 {
        let front = slots.drop_last();
        let slot = slots.last();
        lemma_entries_of_archived(front, ids, session);
        assert(archived(slots, ids).drop_last() =~= archived(front, ids));
        let before = selected(front, query);
        if query.picks(slot) {
            assert(before.push(slot).drop_last() =~= before);
            let kept = selected(archived(front, ids), query);
            if ids.contains(slot.id) {
                assert(entry(slot.past()) =~= seq![]);
                assert(kept.push(slot.past()).drop_last() =~= kept);
                assert(entries(kept.push(slot.past())) =~= entries(kept));
            } else {
                assert(kept.push(slot).drop_last() =~= kept);
                assert(without(before, ids).push(slot).drop_last() =~= without(before, ids));
            }
        }
    }
}

/// Archived slots no longer show, and all others show as before.
pub proof fn lemma_archived_is_hidden(state: State, session: Seq<char>, ids: Seq<i64>)
    ensures
        active_context(state.step(ChangeView::ArchiveSlots(ids)), session) == heading() + entries(
            without(session_slots(state, session), ids),
        ),
{
    lemma_entries_of_archived(state.slots, ids, session);
}

/// Another slot of a session shows at the end of its context.
proof fn lemma_inserted_is_shown(state: State, slot: SlotView)
    ensures
        active_context(state.step(ChangeView::InsertSlot(slot)), slot.session_id) == active_context(
            state,
            slot.session_id,
        ) + entry(slot),
{
    let query = Query::all(slot.session_id);
    lemma_selected_push(state.slots, slot, query);
    let before = selected(state.slots, query);
    assert(before.push(slot).drop_last() =~= before);
    assert(heading() + (entries(before) + entry(slot)) =~= heading() + entries(before) + entry(slot));
}

/// A recorded log shows at the end of its session's context.
pub proof fn lemma_recorded_is_shown(
    state: State,
    session: Seq<char>,
    raw_log: Seq<char>,
    file_context: Option<Seq<char>>,
    tool_payload: Option<Seq<char>>,
)
    ensures
        active_context(recorded(state, session, raw_log, file_context, tool_payload), session)
            == active_context(state, session) + entry(
            state.present_slot(session, state.next_content_id as i64, raw_log, file_context),
        ),
{
    let id = state.next_content_id as i64;
    let content = ContentView { id, raw_log, file_context, tool_payload };
    let stored = state.step(ChangeView::StoreContent(content));
    let slot = state.present_slot(session, id, raw_log, file_context);
    lemma_inserted_is_shown(stored, slot);
}

/// A recorded log is the newest entry of its session's history.
pub proof fn lemma_recorded_is_newest(
    state: State,
    session: Seq<char>,
    raw_log: Seq<char>,
    file_context: Option<Seq<char>>,
    tool_payload: Option<Seq<char>>,
    limit: int,
)
    requires
        limit != 0,
    ensures
        ({
            let shown = history(
                recorded(state, session, raw_log, file_context, tool_payload),
                session,
                limit,
            );
            &&& shown.len() > 0
            &&& shown[0] == state.present_slot(
                session,
                state.next_content_id as i64,
                raw_log,
                file_context,
            )
        }),
{
    let slot = state.present_slot(session, state.next_content_id as i64, raw_log, file_context);
    lemma_selected_push(state.slots, slot, Query::all(session));
}

/// A recorded log is found by anything that it holds, without regard to the case of ASCII letters, and
/// comes first.
pub proof fn lemma_recorded_is_found(
    state: State,
    session: Seq<char>,
    raw_log: Seq<char>,
    file_context: Option<Seq<char>>,
    tool_payload: Option<Seq<char>>,
    key: Seq<char>,
    limit: int,
)
    requires
        holds(raw_log, key),
        limit != 0,
    ensures
        ({
            let found = search(
                recorded(state, session, raw_log, file_context, tool_payload),
                session,
                key,
                limit,
            );
            &&& found.len() > 0
            &&& found[0] == state.present_slot(
                session,
                state.next_content_id as i64,
                raw_log,
                file_context,
            )
        }),
{
    let slot = state.present_slot(session, state.next_content_id as i64, raw_log, file_context);
    let before = session_slots(state, session);
    assert(hit(slot, key));
    lemma_selected_push(state.slots, slot, Query::all(session));
    assert(before.push(slot).drop_last() =~= before);
}

/// After time travel the moved slots no longer show, the others show as before, and the lesson shows
/// at the end.
pub proof fn lemma_travel_is_shown(state: State, args: ArgsView)
    ensures
        ({
            let ids = ids_of(targets(state, args));
            let moved = state.step(ChangeView::ArchiveSlots(ids));
            active_context(travelled(state, args), args.session()) == heading() + entries(
                without(session_slots(state, args.session()), ids),
            ) + entry(moved.future_slot(args.session(), trim(args.learning), args.kind()))
        }),
{
    let ids = ids_of(targets(state, args));
    let moved = state.step(ChangeView::ArchiveSlots(ids));
    lemma_archived_is_hidden(state, args.session(), ids);
    lemma_inserted_is_shown(
        moved,
        moved.future_slot(args.session(), trim(args.learning), args.kind()),
    );
}

/// After a loop has been dealt with, the slots that repeated the error no longer show, the others show
/// as before, and the anchor shows at the end.
pub proof fn lemma_mitigation_is_shown(state: State, session: Seq<char>, found: LoopView)
    ensures
        ({
            let moved = state.step(ChangeView::ArchiveSlots(found.ids));
            active_context(mitigated(state, session, found), session) == heading() + entries(
                without(session_slots(state, session), found.ids),
            ) + entry(moved.future_slot(session, anchor(found), DERIVED@))
        }),
{
    let moved = state.step(ChangeView::ArchiveSlots(found.ids));
    lemma_archived_is_hidden(state, session, found.ids);
    lemma_inserted_is_shown(moved, moved.future_slot(session, anchor(found), DERIVED@));
}

/// A revoked constraint no longer shows, and everything else shows as before.
pub proof fn lemma_revoked_is_hidden(state: State, session: Seq<char>, id: i64)
    requires
        state.valid(),
        has_constraint(state, session, id),
    ensures
        active_context(revoked(state, session, id), session) == heading() + entries(
            without(session_slots(state, session), seq![id]),
        ),
{
    let query = Query::in_state(session, FUTURE@).among(seq![id]);
    let found = constraint_with(state, session, id);
    let ids = ids_of(found);
    lemma_archived_is_hidden(state, session, ids);
    lemma_selected_picks(state.slots, query);
    let i = choose|i: int|
        0 <= i < state.slots.len() && (#[trigger] state.slots[i]).id == id && state.slots[i].session_id
            == session && state.slots[i].temporal_state == FUTURE@;
    assert(seq![id][0] == id);
    lemma_picked_is_selected(state.slots, query, i);
    let k = choose|k: int| 0 <= k < found.len() && found[k] == state.slots[i];
    assert(ids[k] == id);
    assert forall|other: i64| ids.contains(other) == seq![id].contains(other) by {
        if ids.contains(other) {
            let j = choose|j: int| 0 <= j < ids.len() && ids[j] == other;
            assert(query.picks(found[j]));
        }
    }
    lemma_without_same(session_slots(state, session), ids, seq![id]);
}

/// Which ids are left out is all that counts.
proof fn lemma_without_same(slots: Seq<SlotView>, a: Seq<i64>, b: Seq<i64>)
    requires
        forall|id: i64| a.contains(id) == b.contains(id),
    ensures
        without(slots, a) == without(slots, b),
    decreases slots.len(),
{
    if slots.len() > 0 {
        lemma_without_same(slots.drop_last(), a, b);
    }
}

/// Where no slot of a list has one of the ids, leaving those out leaves the list.
proof fn lemma_without_none(slots: Seq<SlotView>, ids: Seq<i64>)
    requires
        forall|i: int| 0 <= i < slots.len() ==> !ids.contains((#[trigger] slots[i]).id),
    ensures
        without(slots, ids) == slots,
    decreases slots.len(),
{
    if slots.len() > 0 {
        assert forall|i: int| 0 <= i < slots.drop_last().len() implies !ids.contains(
            (#[trigger] slots.drop_last()[i]).id,
        ) by {
            assert(slots.drop_last()[i] == slots[i]);
        }
        lemma_without_none(slots.drop_last(), ids);
        assert(!ids.contains(slots[slots.len() - 1].id));
        assert(without(slots, ids) =~= slots);
    }
}

/// Where every slot of a list has one of the ids, leaving those out leaves nothing.
proof fn lemma_without_all(slots: Seq<SlotView>, ids: Seq<i64>)
    requires
        forall|i: int| 0 <= i < slots.len() ==> ids.contains((#[trigger] slots[i]).id),
    ensures
        without(slots, ids).len() == 0,
    decreases slots.len(),
{
    if slots.len() > 0 {
        assert forall|i: int| 0 <= i < slots.drop_last().len() implies ids.contains(
            (#[trigger] slots.drop_last()[i]).id,
        ) by {
            assert(slots.drop_last()[i] == slots[i]);
        }
        lemma_without_all(slots.drop_last(), ids);
        assert(ids.contains(slots[slots.len() - 1].id));
    }
}

/// Merging constraints leaves the session's present alone, and one constraint where it merges at all.
pub proof fn lemma_merging(state: State, session: Seq<char>)
    requires
        state.valid(),
    ensures
        present_logs(consolidated(state, session), session) == present_logs(state, session),
        merges(state, session) ==> {
            let after = constraints(consolidated(state, session), session);
            &&& after.len() == 1
            &&& after[0].learning_summary == Some(
                merged(distinct_lessons_of(constraints(state, session))),
            )
            &&& after[0].constraint_type == Some(DERIVED@)
        },
        !merges(consolidated(state, session), session),
{
    if merges(state, session) {
        lemma_states_differ();
        let future = Query::in_state(session, FUTURE@);
        let present = Query::in_state(session, PRESENT@).with_log();
        let picked = constraints(state, session);
        let ids = ids_of(picked);
        let moved = state.step(ChangeView::ArchiveSlots(ids));
        let text = merged(distinct_lessons_of(picked));
        let slot = moved.future_slot(session, text, DERIVED@);
        lemma_selected_picks(state.slots, future);
        lemma_selected_picks(state.slots, present);
        lemma_selected_archived(state.slots, ids, future);
        lemma_selected_archived(state.slots, ids, present);
        lemma_selected_push(moved.slots, slot, future);
        lemma_selected_push(moved.slots, slot, present);
        let logs = selected(state.slots, present);
        assert forall|i: int| 0 <= i < logs.len() implies !ids.contains((#[trigger] logs[i]).id) by {
            if ids.contains(logs[i].id) {
                let k = choose|k: int| 0 <= k < ids.len() && ids[k] == logs[i].id;
                let a = choose|a: int| 0 <= a < state.slots.len() && state.slots[a] == picked[k];
                let b = choose|b: int| 0 <= b < state.slots.len() && state.slots[b] == logs[i];
                assert(state.slots[a].id == state.slots[b].id);
                assert(a == b);
            }
        }
        lemma_without_none(logs, ids);
        assert forall|i: int| 0 <= i < picked.len() implies ids.contains((#[trigger] picked[i]).id) by {
            assert(ids[i] == picked[i].id);
        }
        lemma_without_all(picked, ids);
    }
}

/// A context with warnings is the context of the session, followed, where constraints contradict each
/// other, by a title, a line for each warning, and what to do about them.
pub proof fn lemma_context_is_followed_by_warnings(state: State, session: Seq<char>)
    ensures
        conflicts(state, session).len() == 0 ==> annotated_context(state, session) == active_context(
            state,
            session,
        ),
        conflicts(state, session).len() > 0 ==> annotated_context(state, session) == active_context(
            state,
            session,
        ) + "\n─── ⚠ CONFLICTING FUTURE CONSTRAINTS DETECTED ───\n"@ + warning_lines(
            conflicts(state, session),
        ) + "  → Resolve with vlk_revoke_future before proceeding.\n"@,
{
    reveal_strlit("");
    let context = active_context(state, session);
    let title = "\n─── ⚠ CONFLICTING FUTURE CONSTRAINTS DETECTED ───\n"@;
    let lines = warning_lines(conflicts(state, session));
    let advice = "  → Resolve with vlk_revoke_future before proceeding.\n"@;
    assert(context + ""@ =~= context);
    assert(context + (title + lines + advice) =~= context + title + lines + advice);
}

/// A clean context shows no error loop: fewer slots of the session's present than the threshold share a
/// log, and fewer share a fingerprint.
pub proof fn lemma_clean_has_no_loop(state: State, session: Seq<char>)
    requires
        state.valid(),
        state.room(present_logs(state, session).len() as int + 1),
    ensures
        loop_in(cleaned(state, session), session, LOOP_THRESHOLD_DEFAULT as int) is None,
        forall|key: Seq<char>|
            #![trigger occurrences(trimmed_logs(present_logs(cleaned(state, session), session)), key)]
            occurrences(trimmed_logs(present_logs(cleaned(state, session), session)), key)
                < LOOP_THRESHOLD_DEFAULT,
        forall|key: Seq<char>|
            #![trigger occurrences(fingerprints(present_logs(cleaned(state, session), session)), key)]
            occurrences(fingerprints(present_logs(cleaned(state, session), session)), key)
                < LOOP_THRESHOLD_DEFAULT,
{
    lemma_settled(state, session);
    lemma_settled_has_no_loop(state, session);
    lemma_merging(settled(state, session), session);
}

/// A clean context has no more constraints than the threshold allows, unless they hold no lesson to
/// merge.
pub proof fn lemma_clean_has_few_constraints(state: State, session: Seq<char>)
    requires
        state.valid(),
        state.room(present_logs(state, session).len() as int + 1),
    ensures
        constraints(cleaned(state, session), session).len() <= FUTURE_CONSOLIDATION_THRESHOLD
            || lessons_of(constraints(cleaned(state, session), session)).len() == 0,
{
    lemma_settled(state, session);
    lemma_merging(settled(state, session), session);
}

/// Fetching a clean context again changes nothing and shows the same.
pub proof fn lemma_clean_is_stable(state: State, session: Seq<char>)
    requires
        state.valid(),
        state.room(present_logs(state, session).len() as int + 1),
    ensures
        cleaned(cleaned(state, session), session) == cleaned(state, session),
        annotated_context(cleaned(cleaned(state, session), session), session) == annotated_context(
            cleaned(state, session),
            session,
        ),
{
    let clean = cleaned(state, session);
    lemma_clean_has_no_loop(state, session);
    lemma_settled(state, session);
    lemma_merging(settled(state, session), session);
    assert(settled(clean, session) == clean);
}

} // verus!

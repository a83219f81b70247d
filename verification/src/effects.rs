//! What the operations do to a timeline, slot by slot.
use vstd::prelude::*;
use crate::census::{count, lemma_listed_archived, lemma_selected_lists, lists, log_chars};
use crate::consolidation::{consolidated, constraints, distinct_lessons_of, lessons_of, merged, merges};
use crate::loops::{anchor, mitigated, LoopView};
use crate::memory::{
    archived, lemma_archive, lemma_highest, lemma_next_order, loaded, measured, total_weight,
    ChangeView, ContentView, State,
};
use crate::record::recorded;
use crate::revocation::{constraint_with, has_constraint, revoked};
use crate::slot::{ids_of, lemma_picked_is_selected, lemma_selected_picks, selected, Query, SlotView};
use crate::text::trim;
use crate::text_laws::{is_blank, lemma_trim};
use crate::time_travel::{targets, travelled, ArgsView};

verus! {

/// A slot moved to the past, with everything else as it was.
pub open spec fn moved_to_past(slot: SlotView) -> SlotView {
    SlotView { temporal_state: "PAST"@, ..slot }
}

/// Whether `order` is the position of a session's next slot: the first where the session has none, and else
/// the one behind its last.
pub open spec fn is_next_position(slots: Seq<SlotView>, session: Seq<char>, order: int) -> bool {
    &&& forall|i: int|
        0 <= i < slots.len() && (#[trigger] slots[i]).session_id == session ==> slots[i].sequence_order
            < order
    &&& order == 1 || exists|i: int|
        0 <= i < slots.len() && (#[trigger] slots[i]).session_id == session && slots[i].sequence_order
            == order - 1
    &&& (forall|i: int| 0 <= i < slots.len() ==> (#[trigger] slots[i]).session_id != session) ==> order
        == 1
}

/// Whether `slot` is a new constraint of a session: behind all its slots, with a new id, the given lesson
/// and origin, and no content.
pub open spec fn is_new_constraint(
    state: State,
    slot: SlotView,
    session: Seq<char>,
    lesson: Seq<char>,
    kind: Seq<char>,
) -> bool {
    &&& slot.id == state.next_slot_id
    &&& slot.session_id == session
    &&& slot.temporal_state == "FUTURE"@
    &&& slot.learning_summary == Some(lesson)
    &&& slot.constraint_type == Some(kind)
    &&& slot.content_id is None
    &&& slot.raw_log is None
    &&& slot.file_context is None
    &&& slot.created_at is None
    &&& is_next_position(state.slots, session, slot.sequence_order as int)
}

/// A timeline loads where each slot is in one of the three states and of one of the two origins or none,
/// ids are below those that come next and none occurs twice, each session's slots stand in the order of
/// their positions, and its logs can be measured.
pub proof fn lemma_what_loads(slots: Seq<SlotView>, next_slot_id: i64, next_content_id: i64)
    requires
        forall|i: int|
            0 <= i < slots.len() ==> {
                let slot = #[trigger] slots[i];
                &&& slot.temporal_state == "PRESENT"@ || slot.temporal_state == "PAST"@
                    || slot.temporal_state == "FUTURE"@
                &&& slot.constraint_type is None || slot.constraint_type == Some("DERIVED"@)
                    || slot.constraint_type == Some("PROSPECTIVE"@)
                &&& slot.id < next_slot_id
                &&& slot.content_id is None || slot.content_id->0 < next_content_id
            },
        forall|i: int, j: int|
            0 <= i < j < slots.len() ==> (#[trigger] slots[i]).id != (#[trigger] slots[j]).id,
        forall|i: int, j: int|
            0 <= i < j < slots.len() && (#[trigger] slots[i]).session_id == (
            #[trigger] slots[j]).session_id ==> slots[i].sequence_order <= slots[j].sequence_order,
        log_chars(slots, |slot: SlotView| true) <= i64::MAX,
    ensures
        loaded(slots, next_slot_id as int, next_content_id as int).valid(),
{
    lemma_all_chars(slots);
}

/// What all logs measure.
proof fn lemma_all_chars(slots: Seq<SlotView>)
    ensures
        total_weight(slots) == log_chars(slots, |slot: SlotView| true),
    decreases slots.len(),
{
    if slots.len() > 0 {
        lemma_all_chars(slots.drop_last());
    }
}

/// There is room for another slot exactly where the next id and every position can grow by one; a log can
/// be stored exactly where, beside that, the next content's id can, and the log can be measured with all
/// others.
pub proof fn lemma_when_there_is_room(state: State, log: Seq<char>)
    ensures
        state.room(1) <==> state.next_slot_id < i64::MAX && forall|i: int|
            0 <= i < state.slots.len() ==> (#[trigger] state.slots[i]).sequence_order < i64::MAX,
        state.takes(log) <==> state.room(1) && state.next_content_id < i64::MAX && log_chars(
            state.slots,
            |slot: SlotView| true,
        ) + measured(log) <= i64::MAX,
{
    lemma_all_chars(state.slots);
}

/// The position that a session's next slot gets is the next.
proof fn lemma_next_position(state: State, session: Seq<char>)
    requires
        state.room(1),
    ensures
        is_next_position(state.slots, session, state.next_order(session)),
        i64::MIN <= state.next_order(session) <= i64::MAX,
{
    lemma_highest(state.slots, session);
    lemma_next_order(state, session);
}

/// Where slots are archived, the next position is what it was.
proof fn lemma_next_position_archived(
    slots: Seq<SlotView>,
    ids: Seq<i64>,
    session: Seq<char>,
    order: int,
)
    requires
        is_next_position(archived(slots, ids), session, order),
    ensures
        is_next_position(slots, session, order),
{
    let after = archived(slots, ids);
    assert forall|i: int| 0 <= i < slots.len() implies (#[trigger] slots[i]).session_id
        == after[i].session_id && slots[i].sequence_order == after[i].sequence_order by {}
    if exists|i: int|
        0 <= i < after.len() && (#[trigger] after[i]).session_id == session && after[i].sequence_order
            == order - 1 {
        let i = choose|i: int|
            0 <= i < after.len() && (#[trigger] after[i]).session_id == session
                && after[i].sequence_order == order - 1;
        assert(slots[i].session_id == session);
    }
    if forall|i: int| 0 <= i < slots.len() ==> (#[trigger] slots[i]).session_id != session {
        assert forall|i: int| 0 <= i < after.len() implies (#[trigger] after[i]).session_id
            != session by {
            assert(slots[i].session_id != session);
        }
    }
}

/// Archiving slots and adding a constraint: the slots that were listed are past, the others are as they
/// were, and behind them stands the constraint.
proof fn lemma_archive_and_constrain(
    state: State,
    out: Seq<SlotView>,
    which: spec_fn(SlotView) -> bool,
    session: Seq<char>,
    lesson: Seq<char>,
    kind: Seq<char>,
)
    requires
        state.valid(),
        state.room(1),
        lists(out, state.slots, which),
    ensures
        ({
            let moved = state.step(ChangeView::ArchiveSlots(ids_of(out)));
            let after = moved.step(ChangeView::InsertSlot(moved.future_slot(session, lesson, kind)));
            &&& after.slots.len() == state.slots.len() + 1
            &&& forall|i: int|
                0 <= i < state.slots.len() ==> #[trigger] after.slots[i] == if which(state.slots[i]) {
                    moved_to_past(state.slots[i])
                } else {
                    state.slots[i]
                }
            &&& is_new_constraint(state, after.slots.last(), session, lesson, kind)
        }),
{
    let ids = ids_of(out);
    let moved = state.step(ChangeView::ArchiveSlots(ids));
    let after = moved.step(ChangeView::InsertSlot(moved.future_slot(session, lesson, kind)));
    lemma_archive(state, ids);
    assert(state.room(1));
    assert(moved.room(1));
    lemma_next_position(moved, session);
    lemma_next_position_archived(state.slots, ids, session, moved.next_order(session));
    assert forall|i: int| 0 <= i < state.slots.len() implies #[trigger] after.slots[i] == if which(
        state.slots[i],
    ) {
        moved_to_past(state.slots[i])
    } else {
        state.slots[i]
    } by {
        lemma_listed_archived(state, out, which, i);
        assert(after.slots[i] == archived(state.slots, ids)[i]);
    }
}

/// Recording adds one slot, in the present of its session, for content with the given log, file and
/// payload, under ids that nothing had before, and changes nothing else.
pub proof fn lemma_recording(
    state: State,
    session: Seq<char>,
    raw_log: Seq<char>,
    file_context: Option<Seq<char>>,
    tool_payload: Option<Seq<char>>,
)
    requires
        state.valid(),
        state.takes(raw_log),
    ensures
        ({
            let after = recorded(state, session, raw_log, file_context, tool_payload);
            let slot = after.slots.last();
            let content = ContentView {
                id: state.next_content_id as i64,
                raw_log,
                file_context,
                tool_payload,
            };
            &&& after.slots == state.slots.push(slot)
            &&& slot.id == state.next_slot_id
            &&& slot.content_id == Some(content.id)
            &&& content.id == state.next_content_id
            &&& slot.session_id == session
            &&& slot.temporal_state == "PRESENT"@
            &&& slot.raw_log == Some(raw_log)
            &&& slot.file_context == file_context
            &&& slot.learning_summary is None
            &&& slot.constraint_type is None
            &&& slot.created_at is None
            &&& is_next_position(state.slots, session, slot.sequence_order as int)
            &&& after.journal == state.journal.push(ChangeView::StoreContent(content)).push(
                ChangeView::InsertSlot(slot),
            )
            &&& forall|i: int|
                0 <= i < state.slots.len() ==> (#[trigger] state.slots[i]).id != slot.id
                    && state.slots[i].content_id != slot.content_id
        }),
{
    lemma_next_position(state, session);
}

/// Whether a request for time travel means a slot: it is in the present of the session that the request
/// names, or else of the default one, and its id is among those that are given.
pub open spec fn is_target(args: ArgsView, slot: SlotView) -> bool {
    &&& slot.session_id == match args.session_id {
        Some(session) => session,
        None => "default"@,
    }
    &&& slot.temporal_state == "PRESENT"@
    &&& args.target_timeline_ids.contains(slot.id)
}

/// The slots that a request moves are those that it means.
proof fn lemma_targets(state: State, args: ArgsView)
    ensures
        lists(targets(state, args), state.slots, |slot: SlotView| is_target(args, slot)),
{
    let query = Query::in_state(args.session(), "PRESENT"@).among(args.target_timeline_ids);
    let which = |slot: SlotView| is_target(args, slot);
    assert forall|slot: SlotView| #[trigger] which(slot) == query.picks(slot) by {}
    lemma_selected_lists(state.slots, query, which);
}

/// Time travel moves every slot that is meant to the past and leaves every other slot as it was. Behind
/// them stands the lesson, trimmed, as a new constraint of the origin that was given, or else of one
/// taught by failure.
pub proof fn lemma_travel_moves_targets(state: State, args: ArgsView)
    requires
        state.valid(),
        state.room(1),
        args.refusal() is None,
    ensures
        ({
            let after = travelled(state, args);
            &&& after.slots.len() == state.slots.len() + 1
            &&& forall|i: int|
                0 <= i < state.slots.len() ==> #[trigger] after.slots[i] == if is_target(
                    args,
                    state.slots[i],
                ) {
                    moved_to_past(state.slots[i])
                } else {
                    state.slots[i]
                }
            &&& is_new_constraint(
                state,
                after.slots.last(),
                match args.session_id {
                    Some(session) => session,
                    None => "default"@,
                },
                trim(args.learning),
                match args.constraint_type {
                    Some(kind) => kind,
                    None => "DERIVED"@,
                },
            )
        }),
{
    let which = |slot: SlotView| is_target(args, slot);
    lemma_targets(state, args);
    lemma_archive_and_constrain(
        state,
        targets(state, args),
        which,
        args.session(),
        trim(args.learning),
        args.kind(),
    );
}

/// What a query selects measures what the logs of the slots that it picks measure.
proof fn lemma_selected_chars(
    slots: Seq<SlotView>,
    query: Query,
    which: spec_fn(SlotView) -> bool,
)
    requires
        forall|slot: SlotView| #[trigger] which(slot) == query.picks(slot),
    ensures
        total_weight(selected(slots, query)) == log_chars(slots, which),
    decreases slots.len(),
{
    if slots.len() > 0 {
        lemma_selected_chars(slots.drop_last(), query, which);
        let before = selected(slots.drop_last(), query);
        assert(which(slots.last()) == query.picks(slots.last()));
        assert(before.push(slots.last()).drop_last() =~= before);
    }
}

/// What time travel saves is counted on the logs of all slots that it moves, and of no other.
pub proof fn lemma_travel_saves_moved_logs(state: State, args: ArgsView)
    ensures
        total_weight(targets(state, args)) == log_chars(
            state.slots,
            |slot: SlotView| is_target(args, slot),
        ),
{
    let query = Query::in_state(args.session(), "PRESENT"@).among(args.target_timeline_ids);
    let which = |slot: SlotView| is_target(args, slot);
    assert forall|slot: SlotView| #[trigger] which(slot) == query.picks(slot) by {}
    lemma_selected_chars(state.slots, query, which);
}

/// A request is served exactly where its lesson and its evidence hold more than white space, it asks for a
/// slot, and its origin, where it gives one, is one of the two.
pub proof fn lemma_what_is_refused(args: ArgsView)
    ensures
        args.refusal() is None <==> {
            &&& !is_blank(args.learning)
            &&& args.target_timeline_ids.len() > 0
            &&& !is_blank(args.raw_log_excerpt)
            &&& match args.constraint_type {
                None => true,
                Some(kind) => kind == "DERIVED"@ || kind == "PROSPECTIVE"@,
            }
        },
{
    lemma_trim(args.learning);
    lemma_trim(args.raw_log_excerpt);
}

/// Revoking moves the one constraint that is meant to the past, and nothing else.
pub proof fn lemma_revoking(state: State, session: Seq<char>, id: i64)
    requires
        state.valid(),
    ensures
        ({
            let after = revoked(state, session, id);
            &&& after.slots.len() == state.slots.len()
            &&& forall|i: int|
                0 <= i < state.slots.len() ==> #[trigger] after.slots[i] == if state.slots[i].id == id
                    && state.slots[i].session_id == session && state.slots[i].temporal_state
                    == "FUTURE"@ {
                    moved_to_past(state.slots[i])
                } else {
                    state.slots[i]
                }
            &&& !has_constraint(state, session, id) ==> after == state
            &&& has_constraint(state, session, id) <==> exists|i: int|
                0 <= i < state.slots.len() && (#[trigger] state.slots[i]).id == id
                    && state.slots[i].session_id == session && state.slots[i].temporal_state == "FUTURE"@
        }),
{
    let after = revoked(state, session, id);
    let query = Query::in_state(session, "FUTURE"@).among(seq![id]);
    let which = |slot: SlotView|
        slot.id == id && slot.session_id == session && slot.temporal_state == "FUTURE"@;
    assert forall|slot: SlotView| #[trigger] which(slot) == query.picks(slot) by {
        assert(seq![id][0] == id);
    }
    lemma_selected_lists(state.slots, query, which);
    assert forall|i: int| 0 <= i < state.slots.len() implies #[trigger] after.slots[i] == if which(
        state.slots[i],
    ) {
        moved_to_past(state.slots[i])
    } else {
        state.slots[i]
    } by {
        if has_constraint(state, session, id) {
            lemma_listed_archived(state, constraint_with(state, session, id), which, i);
        } else {
            assert(!(state.slots[i].id == id && state.slots[i].session_id == session
                && state.slots[i].temporal_state == "FUTURE"@));
        }
    }
}

/// Whether a slot is a constraint of a session.
pub open spec fn is_constraint_of(session: Seq<char>, slot: SlotView) -> bool {
    slot.session_id == session && slot.temporal_state == "FUTURE"@
}

/// The lessons of slots are missing exactly where no slot has one.
proof fn lemma_no_lessons(slots: Seq<SlotView>)
    ensures
        lessons_of(slots).len() > 0 <==> exists|i: int|
            0 <= i < slots.len() && (#[trigger] slots[i]).learning_summary is Some,
    decreases slots.len(),
{
    if slots.len() > 0 {
        let front = slots.drop_last();
        lemma_no_lessons(front);
        if exists|i: int| 0 <= i < front.len() && (#[trigger] front[i]).learning_summary is Some {
            let i = choose|i: int| 0 <= i < front.len() && (#[trigger] front[i]).learning_summary is Some;
            assert(slots[i] == front[i]);
        }
        if exists|i: int| 0 <= i < slots.len() && (#[trigger] slots[i]).learning_summary is Some {
            let i = choose|i: int| 0 <= i < slots.len() && (#[trigger] slots[i]).learning_summary is Some;
            if i < front.len() {
                assert(front[i].learning_summary is Some);
            }
        }
        assert(slots[slots.len() - 1] == slots.last());
    }
}

/// A session's constraints are merged exactly where there are more than five and one of them has a lesson.
/// Then all of them move to the past, every other slot is as it was, and behind them stands one constraint
/// with the merged lessons. Otherwise nothing changes.
pub proof fn lemma_consolidating(state: State, session: Seq<char>)
    requires
        state.valid(),
        merges(state, session) ==> state.room(1),
    ensures
        merges(state, session) <==> count(
            state.slots,
            |slot: SlotView| is_constraint_of(session, slot),
        ) > 5 && exists|i: int|
            0 <= i < state.slots.len() && is_constraint_of(session, #[trigger] state.slots[i])
                && state.slots[i].learning_summary is Some,
        !merges(state, session) ==> consolidated(state, session) == state,
        merges(state, session) ==> {
            let after = consolidated(state, session);
            &&& after.slots.len() == state.slots.len() + 1
            &&& forall|i: int|
                0 <= i < state.slots.len() ==> #[trigger] after.slots[i] == if is_constraint_of(
                    session,
                    state.slots[i],
                ) {
                    moved_to_past(state.slots[i])
                } else {
                    state.slots[i]
                }
            &&& is_new_constraint(
                state,
                after.slots.last(),
                session,
                merged(distinct_lessons_of(constraints(state, session))),
                "DERIVED"@,
            )
        },
{
    let query = Query::in_state(session, "FUTURE"@);
    let which = |slot: SlotView| is_constraint_of(session, slot);
    assert forall|slot: SlotView| #[trigger] which(slot) == query.picks(slot) by {}
    lemma_selected_lists(state.slots, query, which);
    let picked = constraints(state, session);
    assert(picked == selected(state.slots, query));
    lemma_no_lessons(picked);
    lemma_selected_picks(state.slots, query);
    if exists|i: int|
        0 <= i < state.slots.len() && is_constraint_of(session, #[trigger] state.slots[i])
            && state.slots[i].learning_summary is Some {
        let i = choose|i: int|
            0 <= i < state.slots.len() && is_constraint_of(session, #[trigger] state.slots[i])
                && state.slots[i].learning_summary is Some;
        lemma_picked_is_selected(state.slots, query, i);
        let k = choose|k: int| 0 <= k < picked.len() && picked[k] == state.slots[i];
        assert(picked[k].learning_summary is Some);
    }
    if lessons_of(picked).len() > 0 {
        let k = choose|k: int| 0 <= k < picked.len() && (#[trigger] picked[k]).learning_summary is Some;
        assert(query.picks(picked[k]) && state.slots.contains(picked[k]));
        let i = choose|i: int| 0 <= i < state.slots.len() && state.slots[i] == picked[k];
        assert(is_constraint_of(session, state.slots[i]));
    }
    if merges(state, session) {
        lemma_archive_and_constrain(
            state,
            picked,
            which,
            session,
            merged(distinct_lessons_of(picked)),
            "DERIVED"@,
        );
    }
}

/// Dealing with a loop moves its slots to the past, leaves every other slot as it was, and adds the anchor
/// as a new constraint.
pub proof fn lemma_mitigating(state: State, session: Seq<char>, found: LoopView)
    requires
        state.valid(),
        state.room(1),
    ensures
        ({
            let after = mitigated(state, session, found);
            &&& after.slots.len() == state.slots.len() + 1
            &&& forall|i: int|
                0 <= i < state.slots.len() ==> #[trigger] after.slots[i] == if found.ids.contains(
                    state.slots[i].id,
                ) {
                    moved_to_past(state.slots[i])
                } else {
                    state.slots[i]
                }
            &&& is_new_constraint(state, after.slots.last(), session, anchor(found), "DERIVED"@)
        }),
{
    let moved = state.step(ChangeView::ArchiveSlots(found.ids));
    lemma_archive(state, found.ids);
    assert(state.room(1));
    assert(moved.room(1));
    lemma_next_position(moved, session);
    lemma_next_position_archived(state.slots, found.ids, session, moved.next_order(session));
    let after = mitigated(state, session, found);
    assert forall|i: int| 0 <= i < state.slots.len() implies #[trigger] after.slots[i]
        == if found.ids.contains(state.slots[i].id) {
        moved_to_past(state.slots[i])
    } else {
        state.slots[i]
    } by {
        assert(after.slots[i] == archived(state.slots, found.ids)[i]);
    }
}

} // verus!

//! What the operations keep, whichever are performed and in whatever order.
use vstd::prelude::*;
use crate::consolidation::{consolidated, constraints, distinct_lessons_of, merged, merges};
use crate::context::cleaned;
use crate::loops::{
    anchor, fingerprints, ids_with, lemma_mitigation_shrinks, loop_in, mitigated, present_logs, repeated_key,
    settled, trimmed_logs, LOOP_THRESHOLD_DEFAULT,
};
use crate::memory::{
    lemma_archive, lemma_insert, lemma_next_order, lemma_run_further, run, ChangeView, ContentView, State,
};
use crate::record::recorded;
use crate::revocation::{constraint_with, revoked};
use crate::slot::{
    ids_of, lemma_selected_picks, selected, Query, SlotView, DERIVED, FUTURE, PAST, PRESENT, PROSPECTIVE,
};
use crate::text::trim;
use crate::time_travel::{targets, travelled, ArgsView};

verus! {

/// Whether `after` can follow from `before` by work on one session: no slot goes away, moves or changes
/// but for being archived; slots are archived and added in that session only; ids only grow; and the
/// journal tells every change.
pub open spec fn evolves(before: State, after: State, session: Seq<char>) -> bool {
    &&& before.slots.len() <= after.slots.len()
    &&& forall|i: int|
        0 <= i < before.slots.len() ==> {
            ||| #[trigger] after.slots[i] == before.slots[i]
            ||| after.slots[i] == before.slots[i].past() && before.slots[i].session_id == session
        }
    &&& forall|i: int|
        before.slots.len() <= i < after.slots.len() ==> (#[trigger] after.slots[i]).session_id
            == session && after.slots[i].id >= before.next_slot_id
    &&& before.next_slot_id <= after.next_slot_id
    &&& before.next_content_id <= after.next_content_id
    &&& before.journal.is_prefix_of(after.journal)
    &&& after == run(before, after.journal.skip(before.journal.len() as int))
}

/// No work at all is work on any session.
pub proof fn lemma_evolves_not(state: State, session: Seq<char>)
    ensures
        evolves(state, state, session),
{
    assert(state.journal =~= state.journal.take(state.journal.len() as int));
    assert(state.journal.skip(state.journal.len() as int).len() == 0);
}

/// One change is told by the journal.
proof fn lemma_step_is_told(state: State, change: ChangeView)
    ensures
        state.journal.is_prefix_of(state.step(change).journal),
        state.step(change) == run(
            state,
            state.step(change).journal.skip(state.journal.len() as int),
        ),
{
    let after = state.step(change);
    assert(state.journal =~= after.journal.take(state.journal.len() as int));
    let told = after.journal.skip(state.journal.len() as int);
    assert(told =~= seq![change]);
    assert(told.drop_last().len() == 0);
    assert(run(state, told.drop_last()) == state);
}

/// Work on one session after work on it is work on it.
pub proof fn lemma_evolves_further(a: State, b: State, c: State, session: Seq<char>)
    requires
        evolves(a, b, session),
        evolves(b, c, session),
    ensures
        evolves(a, c, session),
{
    assert forall|i: int| 0 <= i < a.slots.len() implies {
        ||| #[trigger] c.slots[i] == a.slots[i]
        ||| c.slots[i] == a.slots[i].past() && a.slots[i].session_id == session
    } by {
        assert(b.slots[i] == a.slots[i] || b.slots[i] == a.slots[i].past());
    }
    assert forall|i: int| a.slots.len() <= i < c.slots.len() implies (
    #[trigger] c.slots[i]).session_id == session && c.slots[i].id >= a.next_slot_id by {
        if i < b.slots.len() {
            assert(b.slots[i].session_id == session);
        }
    }
    assert(a.journal =~= c.journal.take(a.journal.len() as int)) by {
        assert(a.journal =~= b.journal.take(a.journal.len() as int));
        assert(b.journal =~= c.journal.take(b.journal.len() as int));
    }
    let first = b.journal.skip(a.journal.len() as int);
    let second = c.journal.skip(b.journal.len() as int);
    lemma_run_further(a, first, second);
    assert(c.journal.skip(a.journal.len() as int) =~= first + second);
}

/// Archiving slots of a session is work on that session.
proof fn lemma_archive_evolves(state: State, picked: Seq<SlotView>, session: Seq<char>)
    requires
        state.valid(),
        forall|k: int|
            0 <= k < picked.len() ==> (#[trigger] picked[k]).session_id == session
                && state.slots.contains(picked[k]),
    ensures
        evolves(state, state.step(ChangeView::ArchiveSlots(ids_of(picked))), session),
        state.step(ChangeView::ArchiveSlots(ids_of(picked))).valid(),
{
    let ids = ids_of(picked);
    let after = state.step(ChangeView::ArchiveSlots(ids));
    lemma_archive(state, ids);
    assert forall|i: int| 0 <= i < state.slots.len() && ids.contains(
        #[trigger] state.slots[i].id,
    ) implies state.slots[i].session_id == session by {
        let k = choose|k: int| 0 <= k < ids.len() && ids[k] == state.slots[i].id;
        let j = choose|j: int| 0 <= j < state.slots.len() && state.slots[j] == picked[k];
        assert(state.slots[j].id == state.slots[i].id);
    }
    lemma_step_is_told(state, ChangeView::ArchiveSlots(ids));
}

/// Adding a session's next constraint is work on that session.
proof fn lemma_future_evolves(state: State, session: Seq<char>, lesson: Seq<char>, kind: Seq<char>)
    requires
        state.valid(),
        state.room(1),
        kind == DERIVED@ || kind == PROSPECTIVE@,
    ensures
        evolves(
            state,
            state.step(ChangeView::InsertSlot(state.future_slot(session, lesson, kind))),
            session,
        ),
        state.step(ChangeView::InsertSlot(state.future_slot(session, lesson, kind))).valid(),
        forall|n: int| #[trigger]
            state.room(n) && n >= 1 ==> state.step(
                ChangeView::InsertSlot(state.future_slot(session, lesson, kind)),
            ).room(n - 1),
{
    let slot = state.future_slot(session, lesson, kind);
    let after = state.step(ChangeView::InsertSlot(slot));
    lemma_next_order(state, session);
    lemma_insert(state, slot);
    lemma_step_is_told(state, ChangeView::InsertSlot(slot));
}

/// An operation on a memory.
pub enum Operation {
    Record {
        session: Seq<char>,
        raw_log: Seq<char>,
        file_context: Option<Seq<char>>,
        tool_payload: Option<Seq<char>>,
    },
    Travel(ArgsView),
    Mitigate { session: Seq<char>, threshold: int },
    Consolidate { session: Seq<char> },
    Clean { session: Seq<char> },
    Revoke { session: Seq<char>, id: i64 },
}

/// The session that an operation works on.
pub open spec fn session_of(operation: Operation) -> Seq<char> {
    match operation {
        Operation::Record { session, raw_log: _, file_context: _, tool_payload: _ } => session,
        Operation::Travel(args) => args.session(),
        Operation::Mitigate { session, threshold: _ } => session,
        Operation::Consolidate { session } => session,
        Operation::Clean { session } => session,
        Operation::Revoke { session, id: _ } => session,
    }
}

/// The memory after an operation.
pub open spec fn performed(state: State, operation: Operation) -> State {
    match operation {
        Operation::Record { session, raw_log, file_context, tool_payload } => recorded(
            state,
            session,
            raw_log,
            file_context,
            tool_payload,
        ),
        Operation::Travel(args) => if args.refusal() is None {
            travelled(state, args)
        } else {
            state
        },
        Operation::Mitigate { session, threshold } => match loop_in(state, session, threshold) {
            Some(found) => mitigated(state, session, found),
            None => state,
        },
        Operation::Consolidate { session } => consolidated(state, session),
        Operation::Clean { session } => cleaned(state, session),
        Operation::Revoke { session, id } => revoked(state, session, id),
    }
}

/// Whether ids, positions and the measure of all logs last for an operation.
pub open spec fn admits(state: State, operation: Operation) -> bool {
    match operation {
        Operation::Record { session: _, raw_log, file_context: _, tool_payload: _ } => state.takes(
            raw_log,
        ),
        Operation::Clean { session } => state.room(present_logs(state, session).len() as int + 1),
        Operation::Mitigate { session, threshold } => threshold >= 0 && (loop_in(
            state,
            session,
            threshold,
        ) is Some ==> state.room(1)),
        Operation::Revoke { session: _, id: _ } => true,
        Operation::Travel(args) => args.refusal() is None ==> state.room(1),
        Operation::Consolidate { session } => merges(state, session) ==> state.room(1),
    }
}

/// Recording keeps what an operation keeps.
proof fn lemma_recorded(
    state: State,
    session: Seq<char>,
    raw_log: Seq<char>,
    file_context: Option<Seq<char>>,
    tool_payload: Option<Seq<char>>,
)
    requires
        state.valid(),
        state.takes(raw_log),
    ensures
        evolves(state, recorded(state, session, raw_log, file_context, tool_payload), session),
        recorded(state, session, raw_log, file_context, tool_payload).valid(),
{
    let after = recorded(state, session, raw_log, file_context, tool_payload);
    let id = state.next_content_id as i64;
    let slot = state.present_slot(session, id, raw_log, file_context);
    let content = ContentView { id, raw_log, file_context, tool_payload };
    let stored = state.step(ChangeView::StoreContent(content));
    lemma_next_order(state, session);
    assert(stored.valid());
    assert(stored.room(1));
    lemma_insert(stored, slot);
    lemma_step_is_told(state, ChangeView::StoreContent(content));
    lemma_step_is_told(stored, ChangeView::InsertSlot(slot));
    lemma_evolves_further(state, stored, after, session);
}

/// Time travel keeps what an operation keeps.
proof fn lemma_travelled(state: State, args: ArgsView)
    requires
        state.valid(),
        state.room(1),
        args.refusal() is None,
    ensures
        evolves(state, travelled(state, args), args.session()),
        travelled(state, args).valid(),
{
    let session = args.session();
    let query = Query::in_state(session, PRESENT@).among(args.target_timeline_ids);
    lemma_selected_picks(state.slots, query);
    let picked = targets(state, args);
    let moved = state.step(ChangeView::ArchiveSlots(ids_of(picked)));
    lemma_archive_evolves(state, picked, session);
    lemma_archive(state, ids_of(picked));
    assert(state.room(1));
    lemma_future_evolves(moved, session, trim(args.learning), args.kind());
    lemma_evolves_further(state, moved, travelled(state, args), session);
}

/// The slots of a loop are slots of the session.
proof fn lemma_loop_slots(state: State, session: Seq<char>, threshold: int) -> (picked: Seq<SlotView>)
    requires
        loop_in(state, session, threshold) is Some,
        threshold >= 0,
    ensures
        ids_of(picked) == loop_in(state, session, threshold)->0.ids,
        forall|k: int|
            0 <= k < picked.len() ==> (#[trigger] picked[k]).session_id == session
                && state.slots.contains(picked[k]),
{
    let found = loop_in(state, session, threshold)->0;
    let slots = present_logs(state, session);
    let query = Query::in_state(session, PRESENT@).with_log();
    lemma_selected_picks(state.slots, query);
    let logs = trimmed_logs(slots);
    let prints = fingerprints(slots);
    let keys = if repeated_key(logs, threshold) is Some {
        logs
    } else {
        prints
    };
    if repeated_key(keys, threshold) is Some {
        let key = repeated_key(keys, threshold)->0;
        lemma_slots_with(slots, keys, key);
        let picked = slots_with(slots, keys, key);
        assert forall|k: int| 0 <= k < picked.len() implies (#[trigger] picked[k]).session_id
            == session && state.slots.contains(picked[k]) by {
            assert(slots.contains(picked[k]));
            let i = choose|i: int| 0 <= i < slots.len() && slots[i] == picked[k];
            let chosen = selected(state.slots, query);
            assert(slots[i] == chosen[chosen.len() - 1 - i]);
        }
        picked
    } else {
        assert(ids_of(Seq::<SlotView>::empty()) =~= found.ids);
        Seq::empty()
    }
}

/// The slots whose key is `key`.
spec fn slots_with(slots: Seq<SlotView>, keys: Seq<Seq<char>>, key: Seq<char>) -> Seq<SlotView>
    decreases keys.len(),
{
    if keys.len() == 0 || slots.len() != keys.len() {
        seq![]
    } else {
        let before = slots_with(slots.drop_last(), keys.drop_last(), key);
        if keys.last() == key {
            before.push(slots.last())
        } else {
            before
        }
    }
}

/// The ids with a key are those of the slots with that key.
proof fn lemma_slots_with(slots: Seq<SlotView>, keys: Seq<Seq<char>>, key: Seq<char>)
    requires
        slots.len() == keys.len(),
    ensures
        ids_of(slots_with(slots, keys, key)) == ids_with(ids_of(slots), keys, key),
        forall|k: int|
            0 <= k < slots_with(slots, keys, key).len() ==> slots.contains(
                #[trigger] slots_with(slots, keys, key)[k],
            ),
    decreases keys.len(),
{
    if keys.len() > 0 {
        let front = slots.drop_last();
        let before = slots_with(front, keys.drop_last(), key);
        let all = slots_with(slots, keys, key);
        lemma_slots_with(front, keys.drop_last(), key);
        assert(ids_of(slots).drop_last() =~= ids_of(front));
        assert(ids_of(all) =~= ids_with(ids_of(slots), keys, key));
        assert forall|k: int| 0 <= k < all.len() implies slots.contains(#[trigger] all[k]) by {
            if k < before.len() {
                assert(all[k] == before[k]);
                let i = choose|i: int| 0 <= i < front.len() && front[i] == before[k];
                assert(slots[i] == all[k]);
            } else {
                assert(slots[slots.len() - 1] == all[k]);
            }
        }
    }
}

/// Dealing with a loop keeps what an operation keeps.
proof fn lemma_mitigated(state: State, session: Seq<char>, threshold: int)
    requires
        state.valid(),
        state.room(1),
        threshold >= 0,
        loop_in(state, session, threshold) is Some,
    ensures
        ({
            let after = mitigated(state, session, loop_in(state, session, threshold)->0);
            &&& evolves(state, after, session)
            &&& after.valid()
            &&& forall|n: int| #[trigger] state.room(n) && n >= 1 ==> after.room(n - 1)
        }),
{
    let found = loop_in(state, session, threshold)->0;
    let picked = lemma_loop_slots(state, session, threshold);
    let moved = state.step(ChangeView::ArchiveSlots(found.ids));
    lemma_archive_evolves(state, picked, session);
    lemma_archive(state, found.ids);
    lemma_future_evolves(moved, session, anchor(found), DERIVED@);
    lemma_evolves_further(state, moved, mitigated(state, session, found), session);
}

/// Dealing with all loops keeps what an operation keeps.
pub proof fn lemma_settled(state: State, session: Seq<char>)
    requires
        state.valid(),
        state.room(present_logs(state, session).len() as int + 1),
    ensures
        evolves(state, settled(state, session), session),
        settled(state, session).valid(),
        settled(state, session).room(1),
    decreases present_logs(state, session).len(),
{
    let n = present_logs(state, session).len() as int + 1;
    match loop_in(state, session, LOOP_THRESHOLD_DEFAULT as int) {
        None => {
            lemma_evolves_not(state, session);
        },
        Some(found) => {
            let next = mitigated(state, session, found);
            lemma_mitigation_shrinks(state, session, LOOP_THRESHOLD_DEFAULT as int);
            lemma_mitigated(state, session, LOOP_THRESHOLD_DEFAULT as int);
            assert(state.room(n));
            assert(next.room(n - 1));
            lemma_settled(next, session);
            lemma_evolves_further(state, next, settled(state, session), session);
        },
    }
}

/// Merging constraints keeps what an operation keeps.
pub proof fn lemma_consolidated(state: State, session: Seq<char>)
    requires
        state.valid(),
        merges(state, session) ==> state.room(1),
    ensures
        evolves(state, consolidated(state, session), session),
        consolidated(state, session).valid(),
{
    lemma_evolves_not(state, session);
    if merges(state, session) {
        let picked = constraints(state, session);
        lemma_selected_picks(state.slots, Query::in_state(session, FUTURE@));
        let moved = state.step(ChangeView::ArchiveSlots(ids_of(picked)));
        lemma_archive_evolves(state, picked, session);
        lemma_archive(state, ids_of(picked));
        let text = merged(distinct_lessons_of(picked));
        lemma_future_evolves(moved, session, text, DERIVED@);
        lemma_evolves_further(state, moved, consolidated(state, session), session);
    }
}

/// Every operation keeps the invariant, and is work on its session alone: it archives slots of that
/// session and adds slots to it, and leaves everything else as it is.
pub proof fn lemma_performed(state: State, operation: Operation)
    requires
        state.valid(),
        admits(state, operation),
    ensures
        evolves(state, performed(state, operation), session_of(operation)),
        performed(state, operation).valid(),
{
    lemma_evolves_not(state, session_of(operation));
    match operation {
        Operation::Record { session, raw_log, file_context, tool_payload } => {
            lemma_recorded(state, session, raw_log, file_context, tool_payload);
        },
        Operation::Travel(args) => {
            if args.refusal() is None {
                lemma_travelled(state, args);
            }
        },
        Operation::Mitigate { session, threshold } => {
            if loop_in(state, session, threshold) is Some {
                lemma_mitigated(state, session, threshold);
            }
        },
        Operation::Consolidate { session } => {
            lemma_consolidated(state, session);
        },
        Operation::Clean { session } => {
            let next = settled(state, session);
            lemma_settled(state, session);
            lemma_consolidated(next, session);
            lemma_evolves_further(state, next, cleaned(state, session), session);
        },
        Operation::Revoke { session, id } => {
            let query = Query::in_state(session, FUTURE@).among(seq![id]);
            lemma_selected_picks(state.slots, query);
            lemma_archive_evolves(state, constraint_with(state, session, id), session);
        },
    }
}

/// The memory after operations, one after the other.
pub open spec fn performed_all(state: State, operations: Seq<Operation>) -> State
    decreases operations.len(),
{
    if operations.len() == 0 {
        state
    } else {
        performed(performed_all(state, operations.drop_last()), operations.last())
    }
}

/// Whether each of several operations is admitted when its turn comes.
pub open spec fn admits_all(state: State, operations: Seq<Operation>) -> bool
    decreases operations.len(),
{
    operations.len() == 0 || {
        &&& admits_all(state, operations.drop_last())
        &&& admits(performed_all(state, operations.drop_last()), operations.last())
    }
}

/// What has happened stays, whatever operations follow: every slot keeps its place, its content and
/// its lesson; its state changes only to `PAST`; and what is past is past for good.
pub proof fn lemma_what_happened_stays(state: State, operations: Seq<Operation>, i: int)
    requires
        state.valid(),
        admits_all(state, operations),
        0 <= i < state.slots.len(),
    ensures
        performed_all(state, operations).valid(),
        i < performed_all(state, operations).slots.len(),
        ({
            let before = state.slots[i];
            let after = performed_all(state, operations).slots[i];
            &&& after == before || after == before.past()
            &&& before.temporal_state == PAST@ ==> after == before
        }),
    decreases operations.len(),
{
    if operations.len() > 0 {
        let middle = performed_all(state, operations.drop_last());
        lemma_what_happened_stays(state, operations.drop_last(), i);
        lemma_performed(middle, operations.last());
        let after = performed(middle, operations.last());
        assert(after.slots[i] == middle.slots[i] || after.slots[i] == middle.slots[i].past());
    }
}

/// Work on one session leaves alone whatever is selected of any other.
pub proof fn lemma_sessions_are_apart(before: State, after: State, session: Seq<char>, query: Query)
    requires
        evolves(before, after, session),
        query.session != session,
    ensures
        selected(after.slots, query) == selected(before.slots, query),
{
    lemma_apart(before.slots, after.slots, session, query);
}

/// Lists that differ in slots of one session select the same slots of any other.
proof fn lemma_apart(before: Seq<SlotView>, after: Seq<SlotView>, session: Seq<char>, query: Query)
    requires
        query.session != session,
        before.len() <= after.len(),
        forall|i: int|
            0 <= i < before.len() ==> {
                ||| #[trigger] after[i] == before[i]
                ||| after[i] == before[i].past() && before[i].session_id == session
            },
        forall|i: int|
            before.len() <= i < after.len() ==> (#[trigger] after[i]).session_id == session,
    ensures
        selected(after, query) == selected(before, query),
    decreases after.len(),
{
    if after.len() > 0 {
        let last = after[after.len() - 1];
        if after.len() > before.len() {
            assert(last.session_id == session);
            lemma_apart(before, after.drop_last(), session, query);
        } else {
            assert(last == before.last() || last == before.last().past());
            assert forall|i: int| 0 <= i < before.drop_last().len() implies {
                ||| #[trigger] after.drop_last()[i] == before.drop_last()[i]
                ||| after.drop_last()[i] == before.drop_last()[i].past()
                    && before.drop_last()[i].session_id == session
            } by {
                assert(after[i] == before[i] || after[i] == before[i].past());
            }
            lemma_apart(before.drop_last(), after.drop_last(), session, query);
        }
    }
}

} // verus!
